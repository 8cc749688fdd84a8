use vstd::prelude::*;

use crate::instr::FromKind;
use crate::text::cat;
use crate::text::join;
use crate::text::join_strings;
use crate::text::nonempty_part;
use crate::text::push_nonempty;
use crate::text::opt_part;
use crate::text::views;

verus! {

/// How a cache mount is shared between concurrent builds.
#[derive(Debug, Clone, Copy, PartialEq, Eq, Structural)]
pub enum Sharing {
    Locked,
    Private,
    Shared,
}

impl Sharing {
    pub open spec fn spec_text(&self) -> Seq<char> {
        match self {
            Sharing::Locked => "locked"@,
            Sharing::Private => "private"@,
            Sharing::Shared => "shared"@,
        }
    }

    pub fn render(&self) -> (r: String)
        ensures
            r@ == self.spec_text(),
    {
        match self {
            Sharing::Locked => String::from_str("locked"),
            Sharing::Private => String::from_str("private"),
            Sharing::Shared => String::from_str("shared"),
        }
    }
}

impl Default for Sharing {
    fn default() -> (r: Self)
        ensures
            r == Sharing::Shared,
    {
        Sharing::Shared
    }
}

/// Options of a bind mount.
#[derive(Debug, Default)]
pub struct BindOptions {
    pub from: Option<FromKind>,
    pub readwrite: bool,
    pub source: Option<String>,
}

impl BindOptions {
    /// The comma-separated parts, in the order `from`, `readwrite`, `source`.
    pub open spec fn spec_args(&self) -> Seq<Seq<char>> {
        opt_part(
            match self.from {
                Some(k) => Some("from="@ + k.spec_text()),
                None => None,
            },
        ) + (if self.readwrite {
            seq!["readwrite"@]
        } else {
            Seq::empty()
        }) + opt_part(
            match self.source {
                Some(s) => Some("source="@ + s@),
                None => None,
            },
        )
    }

    pub open spec fn spec_text(&self) -> Seq<char> {
        join(self.spec_args(), ","@)
    }

    pub fn render(&self) -> (r: String)
        ensures
            r@ == self.spec_text(),
    {
        let mut args: Vec<String> = Vec::new();
        if let Some(from) = &self.from {
            let k = from.render();
            args.push(cat("from=", k.as_str()));
        }
        if self.readwrite {
            args.push(String::from_str("readwrite"));
        }
        if let Some(source) = &self.source {
            args.push(cat("source=", source.as_str()));
        }
        assert(views(args@) =~= self.spec_args());
        join_strings(&args, ",")
    }
}

/// Options of a cache mount. `gid`, `mode` and `uid` have no rendering.
#[derive(Debug, Default)]
pub struct CacheOptions {
    pub from: Option<FromKind>,
    pub gid: Option<u64>,
    pub id: Option<String>,
    pub mode: Option<u64>,
    pub readonly: bool,
    pub sharing: Option<Sharing>,
    pub source: Option<String>,
    pub uid: Option<u64>,
}

impl CacheOptions {
    pub open spec fn supported(&self) -> bool {
        self.gid is None && self.mode is None && self.uid is None
    }

    /// The comma-separated parts, in the order `from`, `id`, `readonly`,
    /// `sharing`, `source`.
    pub open spec fn spec_args(&self) -> Seq<Seq<char>> {
        opt_part(
            match self.from {
                Some(k) => Some("from="@ + k.spec_text()),
                None => None,
            },
        ) + opt_part(
            match self.id {
                Some(s) => Some("id="@ + s@),
                None => None,
            },
        ) + (if self.readonly {
            seq!["readonly"@]
        } else {
            Seq::empty()
        }) + opt_part(
            match self.sharing {
                Some(s) => Some("sharing="@ + s.spec_text()),
                None => None,
            },
        ) + opt_part(
            match self.source {
                Some(s) => Some("source="@ + s@),
                None => None,
            },
        )
    }

    pub open spec fn spec_text(&self) -> Seq<char> {
        join(self.spec_args(), ","@)
    }

    pub fn render(&self) -> (r: String)
        requires
            self.supported(),
        ensures
            r@ == self.spec_text(),
    {
        let mut args: Vec<String> = Vec::new();
        if let Some(from) = &self.from {
            let k = from.render();
            args.push(cat("from=", k.as_str()));
        }
        if let Some(id) = &self.id {
            args.push(cat("id=", id.as_str()));
        }
        if self.readonly {
            args.push(String::from_str("readonly"));
        }
        if let Some(sharing) = &self.sharing {
            let s = sharing.render();
            args.push(cat("sharing=", s.as_str()));
        }
        if let Some(source) = &self.source {
            args.push(cat("source=", source.as_str()));
        }
        assert(views(args@) =~= self.spec_args());
        join_strings(&args, ",")
    }
}

/// Options of a secret mount. `gid`, `mode` and `uid` have no rendering.
#[derive(Debug, Default)]
pub struct SecretOptions {
    pub destination: Option<String>,
    pub env: Option<String>,
    pub gid: Option<u64>,
    pub id: Option<String>,
    pub mode: Option<u64>,
    pub required: bool,
    pub uid: Option<u64>,
}

impl SecretOptions {
    pub open spec fn supported(&self) -> bool {
        self.gid is None && self.mode is None && self.uid is None
    }

    /// The comma-separated parts, in the order `destination`, `env`, `id`,
    /// `required`.
    pub open spec fn spec_args(&self) -> Seq<Seq<char>> {
        opt_part(
            match self.destination {
                Some(s) => Some("destination="@ + s@),
                None => None,
            },
        ) + opt_part(
            match self.env {
                Some(s) => Some("env="@ + s@),
                None => None,
            },
        ) + opt_part(
            match self.id {
                Some(s) => Some("id="@ + s@),
                None => None,
            },
        ) + (if self.required {
            seq!["required"@]
        } else {
            Seq::empty()
        })
    }

    pub open spec fn spec_text(&self) -> Seq<char> {
        join(self.spec_args(), ","@)
    }

    pub fn render(&self) -> (r: String)
        requires
            self.supported(),
        ensures
            r@ == self.spec_text(),
    {
        let mut args: Vec<String> = Vec::new();
        if let Some(destination) = &self.destination {
            args.push(cat("destination=", destination.as_str()));
        }
        if let Some(env) = &self.env {
            args.push(cat("env=", env.as_str()));
        }
        if let Some(id) = &self.id {
            args.push(cat("id=", id.as_str()));
        }
        if self.required {
            args.push(String::from_str("required"));
        }
        assert(views(args@) =~= self.spec_args());
        join_strings(&args, ",")
    }
}

/// Options of an ssh-agent mount. `gid`, `mode` and `uid` have no rendering.
#[derive(Debug, Default)]
pub struct SshOptions {
    pub destination: Option<String>,
    pub gid: Option<u64>,
    pub id: Option<String>,
    pub mode: Option<u64>,
    pub required: bool,
    pub uid: Option<u64>,
}

impl SshOptions {
    pub open spec fn supported(&self) -> bool {
        self.gid is None && self.mode is None && self.uid is None
    }

    /// The comma-separated parts, in the order `destination`, `id`, `required`.
    pub open spec fn spec_args(&self) -> Seq<Seq<char>> {
        opt_part(
            match self.destination {
                Some(s) => Some("destination="@ + s@),
                None => None,
            },
        ) + opt_part(
            match self.id {
                Some(s) => Some("id="@ + s@),
                None => None,
            },
        ) + (if self.required {
            seq!["required"@]
        } else {
            Seq::empty()
        })
    }

    pub open spec fn spec_text(&self) -> Seq<char> {
        join(self.spec_args(), ","@)
    }

    pub fn render(&self) -> (r: String)
        requires
            self.supported(),
        ensures
            r@ == self.spec_text(),
    {
        let mut args: Vec<String> = Vec::new();
        if let Some(destination) = &self.destination {
            args.push(cat("destination=", destination.as_str()));
        }
        if let Some(id) = &self.id {
            args.push(cat("id=", id.as_str()));
        }
        if self.required {
            args.push(String::from_str("required"));
        }
        assert(views(args@) =~= self.spec_args());
        join_strings(&args, ",")
    }
}

/// Options of a tmpfs mount.
#[derive(Debug, Default)]
pub struct TmpfsOptions {
    pub size: Option<String>,
}

impl TmpfsOptions {
    pub open spec fn spec_text(&self) -> Seq<char> {
        match self.size {
            Some(s) => "size="@ + s@,
            None => Seq::empty(),
        }
    }

    pub fn render(&self) -> (r: String)
        ensures
            r@ == self.spec_text(),
    {
        match &self.size {
            Some(s) => cat("size=", s.as_str()),
            None => String::new(),
        }
    }
}

/// A filesystem attached to a single build step.
#[derive(Debug)]
pub enum Mount {
    Bind { destination: String, options: Option<BindOptions> },
    Cache { destination: String, options: Option<CacheOptions> },
    Secret { options: Option<SecretOptions> },
    Ssh { options: Option<SshOptions> },
    Tmpfs { destination: String, options: Option<TmpfsOptions> },
}

impl Mount {
    /// Every option present has a rendering.
    pub open spec fn supported(&self) -> bool {
        match self {
            Mount::Cache { options: Some(o), .. } => o.supported(),
            Mount::Secret { options: Some(o) } => o.supported(),
            Mount::Ssh { options: Some(o) } => o.supported(),
            _ => true,
        }
    }

    /// The comma-separated parts after `--mount=`: the kind, the destination
    /// where the kind has one, then the kind's own options unless they are
    /// empty.
    pub open spec fn spec_args(&self) -> Seq<Seq<char>> {
        match self {
            Mount::Bind { destination, options } => seq![
                "type=bind"@,
                "destination="@ + destination@,
            ] + nonempty_part(
                match options {
                    Some(o) => Some(o.spec_text()),
                    None => None,
                },
            ),
            Mount::Cache { destination, options } => seq![
                "type=cache"@,
                "destination="@ + destination@,
            ] + nonempty_part(
                match options {
                    Some(o) => Some(o.spec_text()),
                    None => None,
                },
            ),
            Mount::Secret { options } => seq!["type=secret"@] + nonempty_part(
                match options {
                    Some(o) => Some(o.spec_text()),
                    None => None,
                },
            ),
            Mount::Ssh { options } => seq!["type=ssh"@] + nonempty_part(
                match options {
                    Some(o) => Some(o.spec_text()),
                    None => None,
                },
            ),
            Mount::Tmpfs { destination, options } => seq![
                "type=tmpfs"@,
                "destination="@ + destination@,
            ] + nonempty_part(
                match options {
                    Some(o) => Some(o.spec_text()),
                    None => None,
                },
            ),
        }
    }

    pub open spec fn spec_text(&self) -> Seq<char> {
        "--mount="@ + join(self.spec_args(), ","@)
    }

    /// Checks that every option present has a rendering.
    pub fn is_supported(&self) -> (r: bool)
        ensures
            r == self.supported(),
    {
        match self {
            Mount::Cache { options: Some(o), .. } => o.gid.is_none() && o.mode.is_none()
                && o.uid.is_none(),
            Mount::Secret { options: Some(o) } => o.gid.is_none() && o.mode.is_none()
                && o.uid.is_none(),
            Mount::Ssh { options: Some(o) } => o.gid.is_none() && o.mode.is_none()
                && o.uid.is_none(),
            _ => true,
        }
    }

    pub fn render(&self) -> (r: String)
        requires
            self.supported(),
        ensures
            r@ == self.spec_text(),
    {
        let mut args: Vec<String> = Vec::new();
        match self {
            Mount::Bind { destination, options } => {
                args.push(String::from_str("type=bind"));
                args.push(cat("destination=", destination.as_str()));
                if let Some(o) = options {
                    push_nonempty(&mut args, o.render());
                }
            },
            Mount::Cache { destination, options } => {
                args.push(String::from_str("type=cache"));
                args.push(cat("destination=", destination.as_str()));
                if let Some(o) = options {
                    push_nonempty(&mut args, o.render());
                }
            },
            Mount::Secret { options } => {
                args.push(String::from_str("type=secret"));
                if let Some(o) = options {
                    push_nonempty(&mut args, o.render());
                }
            },
            Mount::Ssh { options } => {
                args.push(String::from_str("type=ssh"));
                if let Some(o) = options {
                    push_nonempty(&mut args, o.render());
                }
            },
            Mount::Tmpfs { destination, options } => {
                args.push(String::from_str("type=tmpfs"));
                args.push(cat("destination=", destination.as_str()));
                if let Some(o) = options {
                    push_nonempty(&mut args, o.render());
                }
            },
        }
        assert(views(args@) =~= self.spec_args());
        let body = join_strings(&args, ",");
        cat("--mount=", body.as_str())
    }
}

} // verus!
