use vstd::prelude::*;

use crate::containerfile::doc_escape;
use crate::containerfile::doc_text;
use crate::instr::arg_entries;
use crate::instr::bracketed;
use crate::instr::env_entries;
use crate::instr::quoted_all;
use crate::instr::CopyOptions;
use crate::instr::FromKind;
use crate::instr::Instr;
use crate::mount::BindOptions;
use crate::mount::CacheOptions;
use crate::mount::Mount;
use crate::mount::Sharing;
use crate::run::mount_texts;
use crate::run::RunOptions;
use crate::text::cat;
use crate::text::join;
use crate::text::views;
use crate::text::opt_view;
use crate::text::quoted;
use crate::text::DEFAULT_ESCAPE;

verus! {

/// What `str::to_uppercase` makes of a string.
pub uninterp spec fn upper_of(s: Seq<char>) -> Seq<char>;

/// Relies on `str::to_uppercase`: its result depends on the characters alone.
#[verifier::external_body]
fn to_upper(s: &str) -> (r: String)
    ensures
        r@ == upper_of(s@),
{
    s.to_uppercase()
}

/// One declared option of a feature, with its default value.
#[derive(Debug)]
pub struct FeatureOption {
    pub name: String,
    pub default: String,
    pub description: Option<String>,
}

/// A cache mount a feature asks for while its scripts run.
#[derive(Debug)]
pub struct CacheMount {
    pub target: String,
    pub sharing: Sharing,
}

/// A script of a feature: its directory, relative to the build context, and
/// its file name.
#[derive(Debug)]
pub struct Script {
    pub dir: String,
    pub file: String,
}

impl Script {
    /// The script at `path`, with its directory made relative to the build
    /// context `context`; both are canonical paths.
    pub fn locate(path: &str, context: &str) -> (r: Result<Script, ScriptError>)
        ensures
            match locate_spec(path@, context@) {
                Ok((d, f)) => r is Ok && r->Ok_0.dir@ == d && r->Ok_0.file@ == f,
                Err(e) => r == Err::<Script, ScriptError>(e),
            },
    {
        let n = path.unicode_len();
        let mut last: Option<usize> = None;
        let mut i: usize = 0;
        while i < n
            invariant
                n == path@.len(),
                i <= n,
                match last {
                    Some(j) => j < i && j as int == last_slash(path@.take(i as int)),
                    None => last_slash(path@.take(i as int)) == -1,
                },
            decreases n - i,
        {
            let c = path.get_char(i);
            assert(path@.take(i as int + 1).drop_last() =~= path@.take(i as int));
            assert(path@.take(i as int + 1).last() == c);
            if c == '/' {
                last = Some(i);
            }
            i = i + 1;
        }
        assert(path@.take(n as int) =~= path@);
        let k = match last {
            Some(k) => k,
            None => {
                return Err(ScriptError::NotAFile);
            },
        };
        if k == n - 1 {
            return Err(ScriptError::NotAFile);
        }
        let dir = if k == 0 {
            String::from_str("/")
        } else {
            String::from_str(path.substring_char(0, k))
        };
        proof {
            reveal_strlit("/");
        }
        assert(k == 0 ==> dir@ =~= seq!['/']);
        let file = String::from_str(path.substring_char(k + 1, n));
        let ctx = String::from_str(context);
        if dir == ctx {
            return Ok(Script { dir: String::new(), file });
        }
        let mut pre = ctx;
        let m = pre.as_str().unicode_len();
        if !(m > 0 && pre.as_str().get_char(m - 1) == '/') {
            pre.push('/');
        }
        let pl = pre.as_str().unicode_len();
        let dl = dir.as_str().unicode_len();
        if pl <= dl && String::from_str(dir.as_str().substring_char(0, pl)) == pre {
            let rel = String::from_str(dir.as_str().substring_char(pl, dl));
            Ok(Script { dir: rel, file })
        } else {
            Err(ScriptError::OutsideContext)
        }
    }
}

/// Why a script path cannot be used.
#[derive(Debug, Clone, Copy, PartialEq, Eq, Structural)]
pub enum ScriptError {
    /// The path names no file in a directory.
    NotAFile,
    /// The script's directory is not inside the build context.
    OutsideContext,
}

/// The position of the last `/` of `p`, or -1.
pub open spec fn last_slash(p: Seq<char>) -> int
    decreases p.len(),
{
    if p.len() == 0 {
        -1
    } else if p.last() == '/' {
        p.len() - 1
    } else {
        last_slash(p.drop_last())
    }
}

/// `dir` relative to `ctx`, as path components: empty when they are the
/// same, the rest after `ctx/` when `dir` lies below it, else `None`.
pub open spec fn relative_to(dir: Seq<char>, ctx: Seq<char>) -> Option<Seq<char>> {
    if dir == ctx {
        Some(Seq::empty())
    } else {
        let pre = if ctx.len() > 0 && ctx.last() == '/' {
            ctx
        } else {
            ctx.push('/')
        };
        if pre.len() <= dir.len() && dir.take(pre.len() as int) == pre {
            Some(dir.skip(pre.len() as int))
        } else {
            None
        }
    }
}

/// A script path split at its last `/` into its directory (made relative to
/// the build context `ctx`) and its file name.
pub open spec fn locate_spec(p: Seq<char>, ctx: Seq<char>) -> Result<(Seq<char>, Seq<char>), ScriptError> {
    let i = last_slash(p);
    if i < 0 || i == p.len() - 1 {
        Err(ScriptError::NotAFile)
    } else {
        let dir = if i == 0 {
            seq!['/']
        } else {
            p.take(i)
        };
        match relative_to(dir, ctx) {
            Some(rel) => Ok((rel, p.skip(i + 1))),
            None => Err(ScriptError::OutsideContext),
        }
    }
}

/// The build-specific settings of a feature: a merge feature is applied to
/// the base stage itself.
#[derive(Debug)]
pub struct Customizations {
    pub merge: bool,
    pub mounts: Vec<CacheMount>,
}

/// A feature as the build sees it.
#[derive(Debug)]
pub struct Feature {
    pub id: String,
    pub installs_after: Vec<String>,
    pub options: Vec<FeatureOption>,
    pub container_env: Vec<(String, String)>,
    pub entrypoint: Script,
    pub merger: Option<Script>,
    pub customizations: Customizations,
}

/// A feature together with the option values the caller chose for it.
#[derive(Debug)]
pub struct Entry {
    pub feature: Feature,
    pub options: Vec<(String, String)>,
}

/// The texts of a list of instructions under the default escape character.
pub open spec fn texts(s: Seq<Instr>) -> Seq<Seq<char>> {
    s.map_values(|i: Instr| i.spec_text(DEFAULT_ESCAPE))
}

/// The instruction renders, and it is no directive.
pub open spec fn plain(i: Instr) -> bool {
    i.renderable() && !(i is Directive)
}

pub open spec fn all_plain(s: Seq<Instr>) -> bool {
    forall|k: int| 0 <= k < s.len() ==> plain(#[trigger] s[k])
}

/// The lines joined, each ended by a newline.
pub open spec fn lines_text(ls: Seq<Seq<char>>) -> Seq<char>
    decreases ls.len(),
{
    if ls.len() == 0 {
        Seq::empty()
    } else {
        lines_text(ls.drop_last()) + ls.last() + "\n"@
    }
}

/// A file of plain instructions renders with the default escape character,
/// line by line.
pub proof fn lemma_plain_text(s: Seq<Instr>)
    requires
        all_plain(s),
    ensures
        doc_escape(s) == DEFAULT_ESCAPE,
        doc_text(s, doc_escape(s)) == lines_text(texts(s)),
    decreases s.len(),
{
    if s.len() > 0 {
        assert forall|k: int| 0 <= k < s.skip(1).len() implies plain(#[trigger] s.skip(1)[k]) by {
            assert(s.skip(1)[k] == s[k + 1]);
        }
        assert forall|k: int| 0 <= k < s.drop_last().len() implies plain(
            #[trigger] s.drop_last()[k],
        ) by {
            assert(s.drop_last()[k] == s[k]);
        }
        assert(plain(s[0]));
        lemma_plain_text(s.skip(1));
        lemma_plain_text(s.drop_last());
        assert(texts(s.drop_last()) =~= texts(s).drop_last());
    }
}

/// The value of option `name` among the caller's choices: the first match.
pub open spec fn lookup_value(ov: Seq<(String, String)>, name: Seq<char>) -> Option<Seq<char>>
    decreases ov.len(),
{
    if ov.len() == 0 {
        None
    } else if ov[0].0@ == name {
        Some(ov[0].1@)
    } else {
        lookup_value(ov.skip(1), name)
    }
}

/// The value an option gets: the caller's choice, else its default.
pub open spec fn option_value(ov: Seq<(String, String)>, o: FeatureOption) -> Seq<char> {
    match lookup_value(ov, o.name@) {
        Some(v) => v,
        None => o.default@,
    }
}

/// A comment line per described option.
pub open spec fn help_lines(opts: Seq<FeatureOption>) -> Seq<Seq<char>>
    decreases opts.len(),
{
    if opts.len() == 0 {
        Seq::empty()
    } else {
        help_lines(opts.drop_last()) + match opts.last().description {
            Some(d) => seq!["# "@ + ("@help("@ + opts.last().name@ + "): "@ + d@)],
            None => Seq::empty(),
        }
    }
}

/// The texts of the help comments: one per described option.
pub open spec fn help_bodies(opts: Seq<FeatureOption>) -> Seq<Seq<char>>
    decreases opts.len(),
{
    if opts.len() == 0 {
        Seq::empty()
    } else {
        help_bodies(opts.drop_last()) + match opts.last().description {
            Some(d) => seq!["@help("@ + opts.last().name@ + "): "@ + d@],
            None => Seq::empty(),
        }
    }
}

/// `seg` is a comment per text of `bodies`, in order.
pub open spec fn comments_are(seg: Seq<Instr>, bodies: Seq<Seq<char>>) -> bool {
    &&& seg.len() == bodies.len()
    &&& forall|k: int|
        0 <= k < seg.len() ==> (#[trigger] seg[k]) is Comment && seg[k]->Comment_0@ == bodies[k]
}

/// The entries of the options' `ARG`: each option's name in upper case with
/// its value.
pub open spec fn expected_args(opts: Seq<FeatureOption>, ov: Seq<(String, String)>) -> Seq<
    (Seq<char>, Option<Seq<char>>),
> {
    opts.map_values(|o: FeatureOption| (upper_of(o.name@), Some(option_value(ov, o))))
}

/// The characters of `ARG` entries.
pub open spec fn arg_views(v: Seq<(String, Option<String>)>) -> Seq<(Seq<char>, Option<Seq<char>>)> {
    v.map_values(|p: (String, Option<String>)| (p.0@, opt_view(p.1)))
}

/// The ` NAME="value"` entries of the options' `ARG` line.
pub open spec fn arg_text(opts: Seq<FeatureOption>, ov: Seq<(String, String)>) -> Seq<char>
    decreases opts.len(),
{
    if opts.len() == 0 {
        Seq::empty()
    } else {
        arg_text(opts.drop_last(), ov) + " "@ + upper_of(opts.last().name@) + "="@ + quoted(
            DEFAULT_ESCAPE,
            option_value(ov, opts.last()),
        )
    }
}

/// The stage a feature is built in.
pub open spec fn stage_name(id: Seq<char>) -> Seq<char> {
    "devpp-feature-"@ + id
}

/// The directory a feature's artifacts are installed to.
pub open spec fn install_path(id: Seq<char>) -> Seq<char> {
    "/opt/"@ + id
}

pub open spec fn acquire_comment() -> Seq<char> {
    "# "@ + "@see: [acquire.sh](https://github.com/devcontainers/spec/issues/21)"@
}

pub open spec fn bind_text(dir: Seq<char>) -> Seq<char> {
    "--mount=type=bind,destination=/features/,source="@ + dir
}

pub open spec fn cache_text(m: CacheMount) -> Seq<char> {
    "--mount=type=cache,destination="@ + m.target@ + ",sharing="@ + m.sharing.spec_text()
}

pub open spec fn cache_texts(ms: Seq<CacheMount>) -> Seq<Seq<char>> {
    ms.map_values(|m: CacheMount| cache_text(m))
}

/// `m` is the cache mount that `c` asks for: its target and sharing, and no
/// other option.
pub open spec fn is_cache_of(m: Mount, c: CacheMount) -> bool {
    match m {
        Mount::Cache { destination, options: Some(o) } => destination@ == c.target@ && o.from is None
            && o.gid is None && o.id is None && o.mode is None && !o.readonly && o.sharing == Some(
            c.sharing,
        ) && o.source is None && o.uid is None,
        _ => false,
    }
}

/// `m` bind-mounts the directory `dir` at `/features/`, with no other option.
pub open spec fn is_bind_of(m: Mount, dir: Seq<char>) -> bool {
    match m {
        Mount::Bind { destination, options: Some(b) } => destination@ == "/features/"@ && b.from is None
            && !b.readwrite && opt_view(b.source) == Some(dir),
        _ => false,
    }
}

/// `i` runs script `s` with `sh`: the script's directory bind-mounted at
/// `/features/`, then the cache mounts `ms`, and no other option.
pub open spec fn is_run_of(i: Instr, s: Script, ms: Seq<CacheMount>) -> bool {
    match i {
        Instr::Run { command, options: Some(o) } => {
            &&& views(command@) == seq!["sh"@, "/features/"@ + s.file@]
            &&& o.device is None
            &&& o.network is None
            &&& o.security is None
            &&& match o.mount {
                Some(m) => {
                    &&& m@.len() == ms.len() + 1
                    &&& is_bind_of(m@[0], s.dir@)
                    &&& forall|k: int| 0 <= k < ms.len() ==> is_cache_of(#[trigger] m@[k + 1], ms[k])
                },
                None => false,
            }
        },
        _ => false,
    }
}

/// The line that runs a script with its directory bind-mounted at
/// `/features/` and the feature's cache mounts.
pub open spec fn run_text(s: Script, ms: Seq<CacheMount>) -> Seq<char> {
    "RUN "@ + join(seq![bind_text(s.dir@)] + cache_texts(ms), " "@) + bracketed(
        seq![quoted(DEFAULT_ESCAPE, "sh"@), quoted(DEFAULT_ESCAPE, "/features/"@ + s.file@)],
    )
}

/// The line that copies a feature's artifacts out of its stage.
pub open spec fn copy_text(id: Seq<char>) -> Seq<char> {
    "COPY --from="@ + stage_name(id) + " --link"@ + bracketed(
        seq![quoted(DEFAULT_ESCAPE, install_path(id)), quoted(DEFAULT_ESCAPE, install_path(id))],
    )
}

/// Appends a plain instruction.
pub(crate) fn push_instr(sink: &mut Vec<Instr>, i: Instr)
    requires
        plain(i),
    ensures
        all_plain(old(sink)@) ==> all_plain(final(sink)@),
        texts(final(sink)@) == texts(old(sink)@).push(i.spec_text(DEFAULT_ESCAPE)),
        final(sink)@ == old(sink)@.push(i),
{
    let ghost prev = sink@;
    let ghost t = i.spec_text(DEFAULT_ESCAPE);
    sink.push(i);
    assert(texts(sink@) =~= texts(prev).push(t));
}

/// The caller's value for option `name`, if any: the first match.
fn lookup_option(ov: &Vec<(String, String)>, name: &String) -> (r: Option<String>)
    ensures
        match lookup_value(ov@, name@) {
            Some(v) => r is Some && r->0@ == v,
            None => r is None,
        },
{
    let mut i: usize = 0;
    assert(ov@.skip(0) =~= ov@);
    while i < ov.len()
        invariant
            i <= ov@.len(),
            lookup_value(ov@, name@) == lookup_value(ov@.skip(i as int), name@),
        decreases ov@.len() - i,
    {
        if ov[i].0 == *name {
            assert(ov@.skip(i as int)[0] == ov@[i as int]);
            return Some(ov[i].1.clone());
        }
        assert(ov@.skip(i as int).skip(1) =~= ov@.skip(i as int + 1));
        i = i + 1;
    }
    assert(ov@.skip(i as int) =~= Seq::<(String, String)>::empty());
    None
}

/// The `ARG` entry of option `o`, under the name `upper_name` (the option's
/// name in upper case): the caller's value if they chose one, else the
/// option's default.
pub fn option_arg(upper_name: String, o: &FeatureOption, ov: &Vec<(String, String)>) -> (r: (
    String,
    Option<String>,
))
    ensures
        r.0@ == upper_name@,
        r.1 is Some,
        r.1->0@ == option_value(ov@, *o),
{
    match lookup_option(ov, &o.name) {
        Some(v) => (upper_name, Some(v)),
        None => (upper_name, Some(o.default.clone())),
    }
}

impl Entry {
    pub open spec fn args_lines(&self) -> Seq<Seq<char>> {
        help_lines(self.feature.options@) + if self.feature.options@.len() > 0 {
            seq!["ARG"@ + arg_text(self.feature.options@, self.options@)]
        } else {
            Seq::empty()
        }
    }

    pub open spec fn env_lines(&self) -> Seq<Seq<char>> {
        if self.feature.container_env@.len() > 0 {
            seq!["ENV"@ + env_entries(DEFAULT_ESCAPE, self.feature.container_env@)]
        } else {
            Seq::empty()
        }
    }

    pub open spec fn run_lines(&self, s: Script) -> Seq<Seq<char>> {
        seq![run_text(s, self.feature.customizations.mounts@)]
    }

    /// What a dependent stage takes from this feature: a marker comment, the
    /// environment, the copy of the artifacts, and the merge script if any.
    pub open spec fn dependency_lines(&self) -> Seq<Seq<char>> {
        seq![acquire_comment()] + self.env_lines() + seq![copy_text(self.feature.id@)] + match self.feature.merger {
            Some(s) => self.run_lines(s),
            None => Seq::empty(),
        }
    }

    /// What installs this feature: its arguments, its environment, and the
    /// run of its entrypoint.
    pub open spec fn feature_lines(&self) -> Seq<Seq<char>> {
        self.args_lines() + self.env_lines() + self.run_lines(self.feature.entrypoint)
    }

    pub fn get_feature_id(&self) -> (r: String)
        ensures
            r@ == stage_name(self.feature.id@),
    {
        cat("devpp-feature-", self.feature.id.as_str())
    }

    pub fn is_merge(&self) -> (r: bool)
        ensures
            r == self.feature.customizations.merge,
    {
        self.feature.customizations.merge
    }

    /// The feature's cache mounts.
    pub fn get_devpp_mounts(&self) -> (r: Vec<Mount>)
        ensures
            mount_texts(r@) == cache_texts(self.feature.customizations.mounts@),
            forall|k: int| 0 <= k < r@.len() ==> (#[trigger] r@[k]).supported(),
            r@.len() == self.feature.customizations.mounts@.len(),
            forall|k: int|
                0 <= k < r@.len() ==> is_cache_of(
                    #[trigger] r@[k],
                    self.feature.customizations.mounts@[k],
                ),
    {
        let ms = &self.feature.customizations.mounts;
        let mut r: Vec<Mount> = Vec::new();
        let mut i: usize = 0;
        while i < ms.len()
            invariant
                ms == &self.feature.customizations.mounts,
                i <= ms@.len(),
                mount_texts(r@) == cache_texts(ms@.take(i as int)),
                forall|k: int| 0 <= k < r@.len() ==> (#[trigger] r@[k]).supported(),
                r@.len() == i,
                forall|k: int| 0 <= k < r@.len() ==> is_cache_of(#[trigger] r@[k], ms@[k]),
            decreases ms@.len() - i,
        {
            let m = &ms[i];
            let mount = Mount::Cache {
                destination: m.target.clone(),
                options: Some(
                    CacheOptions {
                        from: None,
                        gid: None,
                        id: None,
                        mode: None,
                        readonly: false,
                        sharing: Some(m.sharing),
                        source: None,
                        uid: None,
                    },
                ),
            };
            let ghost prev = r@;
            proof {
                let o = CacheOptions {
                    from: None,
                    gid: None,
                    id: None,
                    mode: None,
                    readonly: false,
                    sharing: Some(m.sharing),
                    source: None,
                    uid: None,
                };
                assert(o.spec_args() =~= seq!["sharing="@ + m.sharing.spec_text()]);
                crate::text::lemma_join1("sharing="@ + m.sharing.spec_text(), ","@);
                reveal_strlit("sharing=");
                assert(o.spec_text().len() > 0);
                let parts = mount.spec_args();
                assert(parts =~= seq![
                    "type=cache"@,
                    "destination="@ + m.target@,
                    "sharing="@ + m.sharing.spec_text(),
                ]);
                crate::text::lemma_join3(
                    "type=cache"@,
                    "destination="@ + m.target@,
                    "sharing="@ + m.sharing.spec_text(),
                    ","@,
                );
                reveal_strlit("--mount=");
                reveal_strlit("type=cache");
                reveal_strlit(",");
                reveal_strlit("destination=");
                reveal_strlit("sharing=");
                reveal_strlit(",sharing=");
                reveal_strlit("--mount=type=cache,destination=");
                assert(mount.spec_text() =~= cache_text(*m));
            }
            r.push(mount);
            assert(mount_texts(r@) =~= mount_texts(prev).push(cache_text(ms@[i as int])));
            assert(cache_texts(ms@.take(i as int + 1)) =~= cache_texts(ms@.take(i as int)).push(
                cache_text(ms@[i as int]),
            ));
            i = i + 1;
        }
        assert(ms@.take(ms@.len() as int) =~= ms@);
        r
    }

    /// Appends a comment per described option, then one `ARG` with every
    /// option's value, if the feature has options.
    pub fn push_args(&self, sink: &mut Vec<Instr>)
        ensures
            all_plain(old(sink)@) ==> all_plain(final(sink)@),
            texts(final(sink)@) == texts(old(sink)@) + self.args_lines(),
            final(sink)@.len() >= old(sink)@.len(),
            final(sink)@.take(old(sink)@.len() as int) == old(sink)@,
            ({
                let seg = final(sink)@.skip(old(sink)@.len() as int);
                let hb = help_bodies(self.feature.options@);
                if self.feature.options@.len() > 0 {
                    &&& seg.len() == hb.len() + 1
                    &&& comments_are(seg.drop_last(), hb)
                    &&& seg.last() is Arg
                    &&& arg_views(seg.last()->Arg_0@) == expected_args(
                        self.feature.options@,
                        self.options@,
                    )
                } else {
                    comments_are(seg, hb)
                }
            }),
    {
        let opts = &self.feature.options;
        let mut args: Vec<(String, Option<String>)> = Vec::new();
        let mut i: usize = 0;
        assert(texts(sink@) =~= texts(old(sink)@) + help_lines(opts@.take(0)));
        while i < opts.len()
            invariant
                opts == &self.feature.options,
                i <= opts@.len(),
                args@.len() == i,
                all_plain(old(sink)@) ==> all_plain(sink@),
                texts(sink@) == texts(old(sink)@) + help_lines(opts@.take(i as int)),
                arg_entries(DEFAULT_ESCAPE, args@) == arg_text(opts@.take(i as int), self.options@),
                sink@.len() >= old(sink)@.len(),
                sink@.take(old(sink)@.len() as int) == old(sink)@,
                comments_are(sink@.skip(old(sink)@.len() as int), help_bodies(opts@.take(i as int))),
                arg_views(args@) == expected_args(opts@.take(i as int), self.options@),
            decreases opts@.len() - i,
        {
            let o = &opts[i];
            assert(opts@.take(i as int + 1).drop_last() =~= opts@.take(i as int));
            let ghost before = sink@;
            let ghost n0 = old(sink)@.len() as int;
            if let Some(d) = &o.description {
                let mut t = cat("@help(", o.name.as_str());
                t.append("): ");
                t.append(d.as_str());
                let ghost tv = t@;
                push_instr(sink, Instr::Comment(t));
                assert(sink@.skip(n0) =~= before.skip(n0).push(sink@.last()));
                assert(sink@.take(n0) =~= before.take(n0));
                assert(help_bodies(opts@.take(i as int + 1)) =~= help_bodies(opts@.take(i as int)).push(tv));
            } else {
                assert(help_bodies(opts@.take(i as int + 1)) =~= help_bodies(opts@.take(i as int)));
            }
            assert(texts(sink@) =~= texts(old(sink)@) + help_lines(opts@.take(i as int + 1)));
            let up = to_upper(o.name.as_str());
            let pair = option_arg(up, o, &self.options);
            let ghost prev = args@;
            let ghost pv = (pair.0@, opt_view(pair.1));
            assert(*o == opts@[i as int]);
            assert(pv == (upper_of(opts@[i as int].name@), Some(option_value(self.options@, opts@[i as int]))));
            args.push(pair);
            assert(args@.drop_last() =~= prev);
            assert(arg_views(args@) =~= arg_views(prev).push(pv));
            assert(expected_args(opts@.take(i as int + 1), self.options@) =~= expected_args(
                opts@.take(i as int),
                self.options@,
            ).push(pv));
            i = i + 1;
        }
        assert(opts@.take(opts@.len() as int) =~= opts@);
        let ghost n0 = old(sink)@.len() as int;
        let ghost before = sink@;
        if args.len() > 0 {
            push_instr(sink, Instr::Arg(args));
            assert(sink@.skip(n0).drop_last() =~= before.skip(n0));
            assert(sink@.take(n0) =~= before.take(n0));
        }
    }

    /// Appends one `ENV` with the feature's environment, if it has any.
    pub fn push_envs(&self, sink: &mut Vec<Instr>)
        ensures
            all_plain(old(sink)@) ==> all_plain(final(sink)@),
            texts(final(sink)@) == texts(old(sink)@) + self.env_lines(),
    {
        let env = &self.feature.container_env;
        let mut envs: Vec<(String, String)> = Vec::new();
        let mut i: usize = 0;
        while i < env.len()
            invariant
                env == &self.feature.container_env,
                i <= env@.len(),
                envs@ == env@.take(i as int),
            decreases env@.len() - i,
        {
            envs.push((env[i].0.clone(), env[i].1.clone()));
            assert(envs@ =~= env@.take(i as int + 1));
            i = i + 1;
        }
        assert(env@.take(env@.len() as int) =~= env@);
        if envs.len() > 0 {
            let instr = Instr::Env(envs);
            assert(instr.spec_text(DEFAULT_ESCAPE) == "ENV"@ + env_entries(DEFAULT_ESCAPE, env@));
            push_instr(sink, instr);
            assert(self.env_lines() == seq!["ENV"@ + env_entries(DEFAULT_ESCAPE, env@)]);
        } else {
            assert(self.env_lines() =~= Seq::<Seq<char>>::empty());
        }
        assert(texts(sink@) =~= texts(old(sink)@) + self.env_lines());
    }

    /// Appends the copy of the feature's artifacts out of its stage.
    pub fn push_copy(&self, sink: &mut Vec<Instr>)
        ensures
            all_plain(old(sink)@) ==> all_plain(final(sink)@),
            texts(final(sink)@) == texts(old(sink)@).push(copy_text(self.feature.id@)),
    {
        let id = &self.feature.id;
        let path = cat("/opt/", id.as_str());
        let stage = self.get_feature_id();
        let options = CopyOptions {
            chmod: None,
            chown: None,
            exclude: None,
            from: Some(FromKind::Stage(stage)),
            link: true,
            parents: None,
        };
        let instr = Instr::Copy { destination: path.clone(), options: Some(options), source: vec![path] };
        proof {
            let q = quoted(DEFAULT_ESCAPE, install_path(id@));
            assert(options.spec_args() =~= seq!["--from="@ + stage_name(id@), "--link"@]);
            crate::text::lemma_join2("--from="@ + stage_name(id@), "--link"@, " "@);
            reveal_strlit("COPY");
            reveal_strlit(" ");
            reveal_strlit("--from=");
            reveal_strlit("--link");
            reveal_strlit(" --link");
            reveal_strlit("COPY --from=");
            assert(quoted_all(DEFAULT_ESCAPE, instr->source@).push(
                quoted(DEFAULT_ESCAPE, instr->destination@),
            ) =~= seq![q, q]);
            assert(instr.spec_text(DEFAULT_ESCAPE) =~= copy_text(id@));
        }
        push_instr(sink, instr);
    }

    /// Appends the run of `script`, with its directory bind-mounted at
    /// `/features/` and the feature's cache mounts.
    pub fn push_run(&self, sink: &mut Vec<Instr>, script: &Script)
        ensures
            all_plain(old(sink)@) ==> all_plain(final(sink)@),
            texts(final(sink)@) == texts(old(sink)@) + self.run_lines(*script),
            final(sink)@.len() == old(sink)@.len() + 1,
            final(sink)@.drop_last() == old(sink)@,
            is_run_of(final(sink)@.last(), *script, self.feature.customizations.mounts@),
    {
        let bo = BindOptions { from: None, readwrite: false, source: Some(script.dir.clone()) };
        proof {
            assert(bo.spec_args() =~= seq!["source="@ + script.dir@]);
            crate::text::lemma_join1("source="@ + script.dir@, ","@);
            reveal_strlit("source=");
            assert(bo.spec_text().len() > 0);
        }
        let bind = Mount::Bind { destination: String::from_str("/features/"), options: Some(bo) };
        proof {
            let dir = script.dir@;
            crate::text::lemma_join3("type=bind"@, "destination="@ + "/features/"@, "source="@ + dir, ","@);
            assert(bind.spec_args() =~= seq!["type=bind"@, "destination="@ + "/features/"@, "source="@ + dir]);
            reveal_strlit("--mount=");
            reveal_strlit("type=bind");
            reveal_strlit(",");
            reveal_strlit("destination=");
            reveal_strlit("/features/");
            reveal_strlit("source=");
            reveal_strlit("--mount=type=bind,destination=/features/,source=");
            assert(bind.spec_text() =~= bind_text(dir));
        }
        let mut mounts: Vec<Mount> = vec![bind];
        let mut more = self.get_devpp_mounts();
        let ghost first = mounts@;
        let ghost rest = more@;
        mounts.append(&mut more);
        assert(mounts@[0] == first[0]);
        assert(forall|k: int| 0 <= k < rest.len() ==> #[trigger] mounts@[k + 1] == rest[k]);
        assert(mount_texts(mounts@) =~= seq![bind_text(script.dir@)] + cache_texts(
            self.feature.customizations.mounts@,
        ));
        let command = vec![String::from_str("sh"), cat("/features/", script.file.as_str())];
        let options = RunOptions { device: None, mount: Some(mounts), network: None, security: None };
        let instr = Instr::Run { command, options: Some(options) };
        proof {
            assert(options.spec_args() =~= mount_texts(mounts@));
            assert(options.supported());
            assert(views(instr->command@) =~= seq!["sh"@, "/features/"@ + script.file@]);
            assert(is_run_of(instr, *script, self.feature.customizations.mounts@));
            assert(quoted_all(DEFAULT_ESCAPE, instr->command@) =~= seq![
                quoted(DEFAULT_ESCAPE, "sh"@),
                quoted(DEFAULT_ESCAPE, "/features/"@ + script.file@),
            ]);
            reveal_strlit("RUN");
            reveal_strlit(" ");
            reveal_strlit("RUN ");
            assert(instr.spec_text(DEFAULT_ESCAPE) =~= run_text(
                *script,
                self.feature.customizations.mounts@,
            ));
        }
        push_instr(sink, instr);
    }

    /// Appends what a dependent stage takes from this feature.
    pub fn push_dependency(&self, sink: &mut Vec<Instr>)
        ensures
            all_plain(old(sink)@) ==> all_plain(final(sink)@),
            texts(final(sink)@) == texts(old(sink)@) + self.dependency_lines(),
    {
        push_instr(
            sink,
            Instr::Comment(
                String::from_str("@see: [acquire.sh](https://github.com/devcontainers/spec/issues/21)"),
            ),
        );
        self.push_envs(sink);
        self.push_copy(sink);
        if let Some(merger) = &self.feature.merger {
            self.push_run(sink, merger);
        }
        assert(texts(final(sink)@) =~= texts(old(sink)@) + self.dependency_lines());
    }

    /// Appends what installs this feature.
    pub fn push_feature(&self, sink: &mut Vec<Instr>)
        ensures
            all_plain(old(sink)@) ==> all_plain(final(sink)@),
            texts(final(sink)@) == texts(old(sink)@) + self.feature_lines(),
    {
        self.push_args(sink);
        self.push_envs(sink);
        self.push_run(sink, &self.feature.entrypoint);
        assert(texts(final(sink)@) =~= texts(old(sink)@) + self.feature_lines());
    }
}

} // verus!
