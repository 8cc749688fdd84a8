use vstd::prelude::*;

use dockerfile_parser_rs::Dockerfile;
use dockerfile_parser_rs::Instruction;
use dockerfile_parser_rs::ParseError;

use crate::text::opt_view;
use crate::compose::BASE_STAGE;

verus! {

#[verifier::external_type_specification]
#[verifier::external_body]
pub struct ExDockerfile(Dockerfile);

#[verifier::external_type_specification]
#[verifier::external_body]
pub struct ExParseError(ParseError);

/// The instructions of a parsed build file as stage lookup sees them: the
/// alias of each `FROM` (`Some`), and `None` for every other instruction.
pub uninterp spec fn stage_lines(d: Dockerfile) -> Seq<Option<Option<Seq<char>>>>;

/// What `Dockerfile`'s `FromStr` impl makes of a text, as stage lookup sees
/// it: the instructions of the parsed file, or `None` where it fails.
pub uninterp spec fn parsed_lines(s: Seq<char>) -> Option<Seq<Option<Option<Seq<char>>>>>;

/// Relies on `Dockerfile`'s `FromStr` impl: parses build-file text; whether
/// it succeeds, and the file it gives, depend on the text alone.
#[verifier::external_body]
fn parse_dockerfile(s: &str) -> (r: Result<Dockerfile, ParseError>)
    ensures
        match r {
            Ok(d) => parsed_lines(s@) == Some(stage_lines(d)),
            Err(_) => parsed_lines(s@) is None,
        },
{
    s.parse::<Dockerfile>()
}

/// Relies on the public `instructions` field of `Dockerfile`: lists, in
/// order, the alias of each `Instruction::From` and `None` for the others.
#[verifier::external_body]
fn stage_aliases(d: &Dockerfile) -> (r: Vec<Option<Option<String>>>)
    ensures
        r@.map_values(|x: Option<Option<String>>| opt_alias(x)) == stage_lines(*d),
{
    d.instructions.iter().map(|i| match i {
        Instruction::From { alias, .. } => Some(alias.clone()),
        _ => None,
    }).collect()
}

/// Relies on the public `instructions` field of `Dockerfile`: sets the alias
/// of the `Instruction::From` at position `i` and changes nothing else.
#[verifier::external_body]
fn set_alias(d: &mut Dockerfile, i: usize, alias: String)
    requires
        i < stage_lines(*old(d)).len(),
        stage_lines(*old(d))[i as int] is Some,
    ensures
        stage_lines(*final(d)) == stage_lines(*old(d)).update(i as int, Some(Some(alias@))),
{
    if let Instruction::From { alias: a, .. } = &mut d.instructions[i] {
        *a = Some(alias);
    }
}

/// The characters of an optional alias entry.
pub open spec fn opt_alias(x: Option<Option<String>>) -> Option<Option<Seq<char>>> {
    match x {
        Some(a) => Some(opt_view(a)),
        None => None,
    }
}

/// Why the base stage cannot be patched.
#[derive(Debug)]
pub enum PatchError {
    Parse(ParseError),
    StageNotFound,
    TargetNotFound,
}

/// Scans from position `i` for the stage named `t`: it starts at a `FROM`
/// aliased `t` (a later such `FROM` before any other one starts it anew)
/// and ends before the next `FROM`, or at the end of the file.
pub open spec fn scan_stage(
    ls: Seq<Option<Option<Seq<char>>>>,
    t: Seq<char>,
    i: int,
    start: Option<int>,
) -> Option<(int, int)>
    decreases ls.len() - i,
{
    if i >= ls.len() || i < 0 {
        match start {
            Some(s) => Some((s, ls.len() as int)),
            None => None,
        }
    } else {
        match ls[i] {
            Some(alias) => if alias == Some(t) {
                scan_stage(ls, t, i + 1, Some(i))
            } else if start is Some {
                Some((start->0, i))
            } else {
                scan_stage(ls, t, i + 1, start)
            },
            None => scan_stage(ls, t, i + 1, start),
        }
    }
}

/// The bounds of the stage named `t`: from its `FROM` up to the next one.
pub open spec fn stage_bounds(ls: Seq<Option<Option<Seq<char>>>>, t: Seq<char>) -> Option<(int, int)> {
    scan_stage(ls, t, 0, None)
}

proof fn lemma_scan_bounds(ls: Seq<Option<Option<Seq<char>>>>, t: Seq<char>, i: int, start: Option<int>)
    requires
        0 <= i <= ls.len(),
        start is Some ==> 0 <= start->0 < i && ls[start->0] == Some(Some(t)),
    ensures
        scan_stage(ls, t, i, start) is Some ==> ({
            let (s, e) = scan_stage(ls, t, i, start)->0;
            0 <= s < e <= ls.len() && ls[s] == Some(Some(t))
        }),
    decreases ls.len() - i,
{
    if i < ls.len() {
        match ls[i] {
            Some(alias) => if alias == Some(t) {
                lemma_scan_bounds(ls, t, i + 1, Some(i));
            } else if start is Some {
            } else {
                lemma_scan_bounds(ls, t, i + 1, start);
            },
            None => lemma_scan_bounds(ls, t, i + 1, start),
        }
    }
}

/// Finds the stage named `target` among the instructions `lines` (the alias
/// of each `FROM`, `None` for other instructions): the position of its
/// `FROM` and the end of the stage.
pub fn find_stage(lines: &Vec<Option<Option<String>>>, target: &String) -> (r: Result<
    (usize, usize),
    PatchError,
>)
    ensures
        match stage_bounds(lines@.map_values(|x: Option<Option<String>>| opt_alias(x)), target@) {
            Some(b) => r is Ok && r->Ok_0.0 == b.0 && r->Ok_0.1 == b.1,
            None => r is Err && r->Err_0 is StageNotFound,
        },
{
    let ghost ls = lines@.map_values(|x: Option<Option<String>>| opt_alias(x));
    let mut start: Option<usize> = None;
    let mut i: usize = 0;
    while i < lines.len()
        invariant
            ls == lines@.map_values(|x: Option<Option<String>>| opt_alias(x)),
            i <= lines@.len(),
            stage_bounds(ls, target@) == scan_stage(
                ls,
                target@,
                i as int,
                match start {
                    Some(s) => Some(s as int),
                    None => None,
                },
            ),
        decreases lines@.len() - i,
    {
        assert(ls[i as int] == opt_alias(lines@[i as int]));
        if let Some(alias) = &lines[i] {
            let matches = match alias {
                Some(a) => *a == *target,
                None => false,
            };
            if matches {
                start = Some(i);
            } else if let Some(s) = start {
                return Ok((s, i));
            }
        }
        i = i + 1;
    }
    match start {
        Some(s) => Ok((s, lines.len())),
        None => Err(PatchError::StageNotFound),
    }
}

/// A build file of the project, parsed, with the name of the stage the
/// features build on.
#[derive(Debug)]
pub struct BaseFile {
    pub ast: Dockerfile,
    pub target: Option<String>,
}

impl BaseFile {
    /// Parses the project's build file.
    pub fn new(text: &str, target: Option<String>) -> (r: Result<BaseFile, PatchError>)
        ensures
            match parsed_lines(text@) {
                Some(ls) => r is Ok && r->Ok_0.target == target && stage_lines(r->Ok_0.ast) == ls,
                None => r is Err && r->Err_0 is Parse,
            },
    {
        match parse_dockerfile(text) {
            Ok(ast) => Ok(BaseFile { ast, target }),
            Err(e) => Err(PatchError::Parse(e)),
        }
    }

    /// Renames the target stage to the base stage the features build on.
    pub fn patch_base(&mut self) -> (r: Result<(), PatchError>)
        ensures
            final(self).target == old(self).target,
            match old(self).target {
                None => r is Err && r->Err_0 is TargetNotFound && final(self).ast == old(self).ast,
                Some(t) => match stage_bounds(stage_lines(old(self).ast), t@) {
                    None => r is Err && r->Err_0 is StageNotFound && final(self).ast == old(
                        self,
                    ).ast,
                    Some(b) => r is Ok && stage_lines(final(self).ast) == stage_lines(
                        old(self).ast,
                    ).update(b.0, Some(Some(BASE_STAGE@))),
                },
            },
    {
        let target = match &self.target {
            Some(t) => t,
            None => {
                return Err(PatchError::TargetNotFound);
            },
        };
        let lines = stage_aliases(&self.ast);
        let ghost ls = lines@.map_values(|x: Option<Option<String>>| opt_alias(x));
        let (start, _end) = match find_stage(&lines, target) {
            Ok(b) => b,
            Err(e) => {
                return Err(e);
            },
        };
        proof {
            lemma_scan_bounds(ls, target@, 0, None);
        }
        set_alias(&mut self.ast, start, String::from_str(BASE_STAGE));
        Ok(())
    }
}

} // verus!
