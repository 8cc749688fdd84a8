use vstd::prelude::*;

use crate::instr::Directive;
use crate::instr::Instr;
use crate::text::DEFAULT_ESCAPE;

verus! {

/// The escape character of a document: the one named by its first escape
/// directive, else the default one.
pub open spec fn doc_escape(s: Seq<Instr>) -> char
    decreases s.len(),
{
    if s.len() == 0 {
        DEFAULT_ESCAPE
    } else {
        match s[0] {
            Instr::Directive(Directive::Escape(c)) => c,
            _ => doc_escape(s.skip(1)),
        }
    }
}

/// The instructions rendered with escape character `e`, one per line.
pub open spec fn doc_text(s: Seq<Instr>, e: char) -> Seq<char>
    decreases s.len(),
{
    if s.len() == 0 {
        Seq::empty()
    } else {
        doc_text(s.drop_last(), e) + s.last().spec_text(e) + "\n"@
    }
}

/// Every instruction has a rendering.
pub open spec fn all_renderable(s: Seq<Instr>) -> bool {
    forall|i: int| 0 <= i < s.len() ==> (#[trigger] s[i]).renderable()
}

/// A build file: an ordered list of instructions, built by appending.
#[derive(Debug)]
pub struct Containerfile(pub Vec<Instr>);

impl View for Containerfile {
    type V = Seq<Instr>;

    open spec fn view(&self) -> Seq<Instr> {
        self.0@
    }
}

impl Default for Containerfile {
    fn default() -> (r: Self)
        ensures
            r@ == Seq::<Instr>::empty(),
    {
        Containerfile(Vec::new())
    }
}

impl Containerfile {
    /// Moves every instruction of `other` to the end of this file.
    pub fn append(&mut self, other: &mut Vec<Instr>)
        ensures
            final(self)@ == old(self)@ + old(other)@,
            final(other)@ == Seq::<Instr>::empty(),
    {
        self.0.append(other);
    }

    pub fn push(&mut self, value: Instr)
        ensures
            final(self)@ == old(self)@.push(value),
    {
        self.0.push(value);
    }

    /// The escape character the whole file is rendered with.
    pub fn escape(&self) -> (r: char)
        ensures
            r == doc_escape(self@),
    {
        let s = &self.0;
        let mut i: usize = 0;
        assert(s@.skip(0) =~= s@);
        while i < s.len()
            invariant
                s@ == self@,
                i <= s@.len(),
                doc_escape(s@) == doc_escape(s@.skip(i as int)),
            decreases s@.len() - i,
        {
            if let Instr::Directive(Directive::Escape(c)) = &s[i] {
                assert(s@.skip(i as int)[0] == s@[i as int]);
                return *c;
            }
            assert(s@.skip(i as int).skip(1) =~= s@.skip(i as int + 1));
            i = i + 1;
        }
        assert(s@.skip(i as int) =~= Seq::<Instr>::empty());
        DEFAULT_ESCAPE
    }

    /// Renders the file: the escape character is settled first, then each
    /// instruction is written on a line of its own.
    pub fn render(&self) -> (r: String)
        requires
            self@.len() > 0,
            all_renderable(self@),
        ensures
            r@ == doc_text(self@, doc_escape(self@)),
    {
        let e = self.escape();
        let s = &self.0;
        let mut r = String::new();
        let mut i: usize = 0;
        while i < s.len()
            invariant
                s@ == self@,
                all_renderable(self@),
                i <= s@.len(),
                r@ == doc_text(s@.take(i as int), e),
            decreases s@.len() - i,
        {
            let t = s[i].display(Some(e)).render();
            r.append(t.as_str());
            r.append("\n");
            assert(s@.take(i as int + 1).drop_last() =~= s@.take(i as int));
            i = i + 1;
        }
        assert(s@.take(s@.len() as int) =~= s@);
        r
    }
}

} // verus!
