use vstd::prelude::*;

use crate::run::RunOptions;
use crate::text::cat;
use crate::text::escape_str;
use crate::text::join;
use crate::text::join_strings;
use crate::text::opt_part;
use crate::text::quoted;
use crate::text::lemma_views_push;
use crate::text::views;
use crate::text::DEFAULT_ESCAPE;

verus! {

/// A parser directive at the head of a build file.
#[derive(Debug)]
pub enum Directive {
    Check(String),
    Escape(char),
    Syntax(String),
}

impl Directive {
    /// Only the escape directive has a rendering.
    pub open spec fn supported(&self) -> bool {
        self is Escape
    }

    pub open spec fn spec_text(&self) -> Seq<char> {
        match self {
            Directive::Escape(c) => "# escape="@ + seq![*c],
            _ => Seq::empty(),
        }
    }

    pub fn render(&self) -> (r: String)
        requires
            self.supported(),
        ensures
            r@ == self.spec_text(),
    {
        match self {
            Directive::Escape(c) => {
                let mut r = String::from_str("# escape=");
                r.push(*c);
                r
            },
            _ => String::new(),
        }
    }
}

/// What a stage or a copy starts from: a build context, a stage declared
/// earlier, or an image.
#[derive(Debug)]
pub enum FromKind {
    Context(String),
    Image { digest: Option<String>, image: String, repo: Option<String>, tag: Option<String> },
    Stage(String),
}

impl FromKind {
    /// A context or a stage is its bare name; an image is
    /// `[repo/]image[:tag][@digest]`.
    pub open spec fn spec_text(&self) -> Seq<char> {
        match self {
            FromKind::Context(c) => c@,
            FromKind::Image { digest, image, repo, tag } => (match repo {
                Some(r) => r@ + "/"@,
                None => Seq::empty(),
            }) + image@ + (match tag {
                Some(t) => ":"@ + t@,
                None => Seq::empty(),
            }) + (match digest {
                Some(d) => "@"@ + d@,
                None => Seq::empty(),
            }),
            FromKind::Stage(s) => s@,
        }
    }

    pub fn render(&self) -> (r: String)
        ensures
            r@ == self.spec_text(),
    {
        match self {
            FromKind::Context(c) => c.clone(),
            FromKind::Image { digest, image, repo, tag } => {
                let mut r = String::new();
                if let Some(repo) = repo {
                    r.append(repo.as_str());
                    r.append("/");
                }
                r.append(image.as_str());
                if let Some(tag) = tag {
                    r.append(":");
                    r.append(tag.as_str());
                }
                if let Some(digest) = digest {
                    r.append("@");
                    r.append(digest.as_str());
                }
                r
            },
            FromKind::Stage(s) => s.clone(),
        }
    }
}

/// Options of a `COPY` instruction. `chmod`, `chown`, `exclude` and `parents`
/// have no rendering.
#[derive(Debug, Default)]
pub struct CopyOptions {
    pub chmod: Option<String>,
    pub chown: Option<String>,
    pub exclude: Option<String>,
    pub from: Option<FromKind>,
    pub link: bool,
    pub parents: Option<String>,
}

impl CopyOptions {
    pub open spec fn supported(&self) -> bool {
        self.chmod is None && self.chown is None && self.exclude is None && self.parents is None
    }

    /// The space-separated parts: `--from=...`, then `--link`.
    pub open spec fn spec_args(&self) -> Seq<Seq<char>> {
        opt_part(
            match self.from {
                Some(k) => Some("--from="@ + k.spec_text()),
                None => None,
            },
        ) + (if self.link {
            seq!["--link"@]
        } else {
            Seq::empty()
        })
    }

    pub open spec fn spec_text(&self) -> Seq<char> {
        join(self.spec_args(), " "@)
    }

    pub fn render(&self) -> (r: String)
        requires
            self.supported(),
        ensures
            r@ == self.spec_text(),
    {
        let mut args: Vec<String> = Vec::new();
        if let Some(from) = &self.from {
            let k = from.render();
            args.push(cat("--from=", k.as_str()));
        }
        if self.link {
            args.push(String::from_str("--link"));
        }
        assert(views(args@) =~= self.spec_args());
        join_strings(&args, " ")
    }
}

/// The `name[=value]` entries of an `ARG`, each preceded by a space.
pub open spec fn arg_entries(e: char, v: Seq<(String, Option<String>)>) -> Seq<char>
    decreases v.len(),
{
    if v.len() == 0 {
        Seq::empty()
    } else {
        arg_entries(e, v.drop_last()) + " "@ + v.last().0@ + match v.last().1 {
            Some(d) => "="@ + quoted(e, d@),
            None => Seq::empty(),
        }
    }
}

/// The `name=value` entries of an `ENV`, each preceded by a space.
pub open spec fn env_entries(e: char, v: Seq<(String, String)>) -> Seq<char>
    decreases v.len(),
{
    if v.len() == 0 {
        Seq::empty()
    } else {
        env_entries(e, v.drop_last()) + " "@ + v.last().0@ + "="@ + quoted(e, v.last().1@)
    }
}

/// Each string of `v` quoted.
pub open spec fn quoted_all(e: char, v: Seq<String>) -> Seq<Seq<char>> {
    v.map_values(|s: String| quoted(e, s@))
}

/// The bracketed list of quoted arguments that ends `COPY` and `RUN`.
pub open spec fn bracketed(parts: Seq<Seq<char>>) -> Seq<char> {
    " [ "@ + join(parts, ", "@) + " ]"@
}

/// Non-empty rule: an `ARG` or `ENV` without entries, a `COPY` without
/// sources and a `RUN` without a command have no rendering, so none of them
/// is ever written as an empty instruction.
pub proof fn lemma_empty_not_renderable(i: Instr)
    ensures
        (i is Arg && i->Arg_0@.len() == 0) ==> !i.renderable(),
        (i is Env && i->Env_0@.len() == 0) ==> !i.renderable(),
        (i is Copy && i->source@.len() == 0) ==> !i.renderable(),
        (i is Run && i->command@.len() == 0) ==> !i.renderable(),
{
}

/// One logical entry of a build file.
#[derive(Debug)]
pub enum Instr {
    Add,
    Arg(Vec<(String, Option<String>)>),
    Cmd,
    Comment(String),
    Copy { destination: String, options: Option<CopyOptions>, source: Vec<String> },
    Directive(Directive),
    Empty,
    Entrypoint,
    Env(Vec<(String, String)>),
    Expose,
    From { kind: FromKind, name: Option<String>, platform: Option<String> },
    Healthcheck,
    Label,
    Maintainer,
    Onbuild,
    Run { command: Vec<String>, options: Option<RunOptions> },
    Shell,
    Stopsignal,
    User,
    Volume,
    Workdir,
}

impl Instr {
    /// The instruction has a rendering: its kind and every option in it are
    /// supported, and an `ARG`, `ENV`, `COPY` source list or `RUN` command is
    /// not empty.
    pub open spec fn renderable(&self) -> bool {
        match self {
            Instr::Arg(v) => v@.len() > 0,
            Instr::Comment(_) => true,
            Instr::Copy { options, source, .. } => source@.len() > 0 && match options {
                Some(o) => o.supported(),
                None => true,
            },
            Instr::Directive(d) => d.supported(),
            Instr::Empty => true,
            Instr::Env(v) => v@.len() > 0,
            Instr::From { .. } => true,
            Instr::Run { command, options } => command@.len() > 0 && match options {
                Some(o) => o.supported(),
                None => true,
            },
            _ => false,
        }
    }

    /// The text of the instruction under escape character `e`.
    pub open spec fn spec_text(&self, e: char) -> Seq<char> {
        match self {
            Instr::Arg(v) => "ARG"@ + arg_entries(e, v@),
            Instr::Comment(t) => "# "@ + t@,
            Instr::Copy { destination, options, source } => "COPY"@ + (match options {
                Some(o) => " "@ + o.spec_text(),
                None => Seq::empty(),
            }) + bracketed(quoted_all(e, source@).push(quoted(e, destination@))),
            Instr::Directive(d) => d.spec_text(),
            Instr::Env(v) => "ENV"@ + env_entries(e, v@),
            Instr::From { kind, name, platform } => "FROM"@ + (match platform {
                Some(p) => " --platform="@ + p@,
                None => Seq::empty(),
            }) + " "@ + kind.spec_text() + (match name {
                Some(n) => " AS "@ + n@,
                None => Seq::empty(),
            }),
            Instr::Run { command, options } => "RUN"@ + (match options {
                Some(o) => " "@ + o.spec_text(),
                None => Seq::empty(),
            }) + bracketed(quoted_all(e, command@)),
            _ => Seq::empty(),
        }
    }

    /// Checks that the instruction has a rendering.
    pub fn is_renderable(&self) -> (r: bool)
        ensures
            r == self.renderable(),
    {
        match self {
            Instr::Arg(v) => v.len() > 0,
            Instr::Comment(_) => true,
            Instr::Copy { options, source, .. } => source.len() > 0 && match options {
                Some(o) => o.chmod.is_none() && o.chown.is_none() && o.exclude.is_none()
                    && o.parents.is_none(),
                None => true,
            },
            Instr::Directive(d) => match d {
                Directive::Escape(_) => true,
                _ => false,
            },
            Instr::Empty => true,
            Instr::Env(v) => v.len() > 0,
            Instr::From { .. } => true,
            Instr::Run { command, options } => command.len() > 0 && match options {
                Some(o) => o.is_supported(),
                None => true,
            },
            _ => false,
        }
    }

    /// Pairs the instruction with the escape character to render it with,
    /// the default one where none is given.
    pub fn display(&self, escape: Option<char>) -> (r: InstrDisplay<'_>)
        ensures
            r.escape == escape.unwrap_or(DEFAULT_ESCAPE),
            r.inner == self,
    {
        InstrDisplay { escape: escape.unwrap_or(DEFAULT_ESCAPE), inner: self }
    }

    /// The text of the instruction under the default escape character.
    pub fn render(&self) -> (r: String)
        requires
            self.renderable(),
        ensures
            r@ == self.spec_text(DEFAULT_ESCAPE),
    {
        self.display(None).render()
    }
}

fn quote_all(e: char, v: &Vec<String>) -> (r: Vec<String>)
    ensures
        views(r@) == quoted_all(e, v@),
{
    let mut r: Vec<String> = Vec::new();
    let mut i: usize = 0;
    while i < v.len()
        invariant
            i <= v@.len(),
            views(r@) == quoted_all(e, v@.take(i as int)),
        decreases v@.len() - i,
    {
        let ghost prev = r@;
        let q = escape_str(e, v[i].as_str());
        r.push(q);
        proof {
            lemma_views_push(prev, q);
            assert(quoted_all(e, v@.take(i as int + 1)) =~= quoted_all(e, v@.take(i as int)).push(
                quoted(e, v@[i as int]@),
            ));
        }
        i = i + 1;
    }
    assert(v@.take(v@.len() as int) =~= v@);
    r
}

fn push_bracketed(out: &mut String, parts: &Vec<String>)
    ensures
        final(out)@ == old(out)@ + bracketed(views(parts@)),
{
    out.append(" [ ");
    let body = join_strings(parts, ", ");
    out.append(body.as_str());
    out.append(" ]");
}

/// An instruction together with the escape character it renders with.
#[derive(Debug)]
pub struct InstrDisplay<'a> {
    pub escape: char,
    pub inner: &'a Instr,
}

impl<'a> InstrDisplay<'a> {
    pub fn render(&self) -> (r: String)
        requires
            self.inner.renderable(),
        ensures
            r@ == self.inner.spec_text(self.escape),
    {
        let e = self.escape;
        match self.inner {
            Instr::Arg(v) => {
                let mut r = String::from_str("ARG");
                let mut i: usize = 0;
                while i < v.len()
                    invariant
                        i <= v@.len(),
                        r@ == "ARG"@ + arg_entries(e, v@.take(i as int)),
                    decreases v@.len() - i,
                {
                    let (name, default) = &v[i];
                    r.append(" ");
                    r.append(name.as_str());
                    if let Some(d) = default {
                        r.append("=");
                        let q = escape_str(e, d.as_str());
                        r.append(q.as_str());
                    }
                    assert(v@.take(i as int + 1).drop_last() =~= v@.take(i as int));
                    i = i + 1;
                }
                assert(v@.take(v@.len() as int) =~= v@);
                r
            },
            Instr::Comment(t) => cat("# ", t.as_str()),
            Instr::Copy { destination, options, source } => {
                let mut r = String::from_str("COPY");
                if let Some(o) = options {
                    r.append(" ");
                    let t = o.render();
                    r.append(t.as_str());
                }
                let mut parts = quote_all(e, source);
                parts.push(escape_str(e, destination.as_str()));
                assert(views(parts@) =~= quoted_all(e, source@).push(quoted(e, destination@)));
                push_bracketed(&mut r, &parts);
                r
            },
            Instr::Directive(d) => d.render(),
            Instr::Empty => String::new(),
            Instr::Env(v) => {
                let mut r = String::from_str("ENV");
                let mut i: usize = 0;
                while i < v.len()
                    invariant
                        i <= v@.len(),
                        r@ == "ENV"@ + env_entries(e, v@.take(i as int)),
                    decreases v@.len() - i,
                {
                    let (key, value) = &v[i];
                    r.append(" ");
                    r.append(key.as_str());
                    r.append("=");
                    let q = escape_str(e, value.as_str());
                    r.append(q.as_str());
                    assert(v@.take(i as int + 1).drop_last() =~= v@.take(i as int));
                    i = i + 1;
                }
                assert(v@.take(v@.len() as int) =~= v@);
                r
            },
            Instr::From { kind, name, platform } => {
                let mut r = String::from_str("FROM");
                if let Some(p) = platform {
                    r.append(" --platform=");
                    r.append(p.as_str());
                }
                r.append(" ");
                let k = kind.render();
                r.append(k.as_str());
                if let Some(n) = name {
                    r.append(" AS ");
                    r.append(n.as_str());
                }
                r
            },
            Instr::Run { command, options } => {
                let mut r = String::from_str("RUN");
                if let Some(o) = options {
                    r.append(" ");
                    let t = o.render();
                    r.append(t.as_str());
                }
                let parts = quote_all(e, command);
                push_bracketed(&mut r, &parts);
                r
            },
            _ => String::new(),
        }
    }
}

} // verus!
