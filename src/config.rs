use vstd::prelude::*;

use crate::text::views;

verus! {

/// Where a devcontainer configuration file was found.
#[derive(Debug)]
pub enum ConfigKind {
    /// `.devcontainer/devcontainer.json`
    Nested { dotdev: String },
    /// `.devcontainer.json`
    Plain,
    /// `.devcontainer/<folder>/devcontainer.json`
    Scoped { dotdev: String },
}

/// A configuration file found in the workspace, by its canonical path.
#[derive(Debug)]
pub struct Config {
    pub kind: ConfigKind,
    pub path: String,
}

/// A configuration file the caller asks for: the path as given, and the
/// same path made canonical, which is what configurations are matched on.
#[derive(Debug)]
pub struct RequestedConfig {
    pub path: String,
    pub canonical: String,
}

/// The characters of an optional requested configuration.
pub open spec fn requested_view(r: Option<RequestedConfig>) -> Option<(Seq<char>, Seq<char>)> {
    match r {
        Some(c) => Some((c.path@, c.canonical@)),
        None => None,
    }
}

/// Why no configuration can be chosen.
#[derive(Debug)]
pub enum ConfigError {
    ConfigAmbiguous { entries: Vec<String> },
    ConfigNotFound,
    ConfigPermissionDenied { config: String, entries: Vec<String> },
    DotdevNotFound,
}

/// A configuration failure, with its paths as characters.
pub enum ConfigFailure {
    ConfigAmbiguous(Seq<Seq<char>>),
    ConfigNotFound,
    ConfigPermissionDenied(Seq<char>, Seq<Seq<char>>),
    DotdevNotFound,
}

impl View for ConfigError {
    type V = ConfigFailure;

    open spec fn view(&self) -> ConfigFailure {
        match self {
            ConfigError::ConfigAmbiguous { entries } => ConfigFailure::ConfigAmbiguous(views(entries@)),
            ConfigError::ConfigNotFound => ConfigFailure::ConfigNotFound,
            ConfigError::ConfigPermissionDenied { config, entries } => ConfigFailure::ConfigPermissionDenied(
                config@,
                views(entries@),
            ),
            ConfigError::DotdevNotFound => ConfigFailure::DotdevNotFound,
        }
    }
}

/// The paths of the configurations found.
pub open spec fn config_paths(es: Seq<Config>) -> Seq<Seq<char>> {
    es.map_values(|c: Config| c.path@)
}

/// The position of the first configuration at `path`; `es.len()` if none is.
pub open spec fn find_path(es: Seq<Config>, path: Seq<char>) -> int
    decreases es.len(),
{
    if es.len() == 0 || es[0].path@ == path {
        0
    } else {
        1 + find_path(es.skip(1), path)
    }
}

/// Which of the configurations found is used: the one at the requested
/// canonical path, or the only one when none is requested. A request that
/// matches none is refused with the path as it was given.
pub open spec fn select_config(es: Seq<Config>, requested: Option<(Seq<char>, Seq<char>)>) -> Result<
    int,
    ConfigFailure,
> {
    if es.len() == 0 {
        Err(ConfigFailure::ConfigNotFound)
    } else {
        match requested {
            Some((given, c)) => if find_path(es, c) < es.len() {
                Ok(find_path(es, c))
            } else {
                Err(ConfigFailure::ConfigPermissionDenied(given, config_paths(es)))
            },
            None => if es.len() > 1 {
                Err(ConfigFailure::ConfigAmbiguous(config_paths(es)))
            } else {
                Ok(0)
            },
        }
    }
}

fn paths_of(entries: &Vec<Config>) -> (r: Vec<String>)
    ensures
        views(r@) == config_paths(entries@),
{
    let mut r: Vec<String> = Vec::new();
    let mut i: usize = 0;
    while i < entries.len()
        invariant
            i <= entries@.len(),
            views(r@) == config_paths(entries@.take(i as int)),
        decreases entries@.len() - i,
    {
        let ghost prev = r@;
        let p = entries[i].path.clone();
        r.push(p);
        proof {
            crate::text::lemma_views_push(prev, p);
        }
        assert(config_paths(entries@.take(i as int + 1)) =~= config_paths(entries@.take(i as int)).push(
            entries@[i as int].path@,
        ));
        i = i + 1;
    }
    assert(entries@.take(entries@.len() as int) =~= entries@);
    r
}

impl Config {
    /// Chooses among the configurations found in the workspace: the one at
    /// `config` when it is given, else the only one.
    pub fn find_config(entries: Vec<Config>, config: Option<RequestedConfig>) -> (r: Result<
        Config,
        ConfigError,
    >)
        ensures
            match select_config(entries@, requested_view(config)) {
                Ok(i) => r is Ok && r->Ok_0 == entries@[i],
                Err(x) => r is Err && r->Err_0@ == x,
            },
    {
        let ghost es = entries@;
        let ghost req = requested_view(config);
        if entries.len() == 0 {
            return Err(ConfigError::ConfigNotFound);
        }
        let mut list = entries;
        match config {
            Some(c) => {
                let mut i: usize = 0;
                assert(es.skip(0) =~= es);
                while i < list.len()
                    invariant
                        es == list@,
                        es == entries@,
                        req == requested_view(config),
                        req == Some((c.path@, c.canonical@)),
                        es.len() > 0,
                        i <= es.len(),
                        find_path(es, c.canonical@) == i + find_path(es.skip(i as int), c.canonical@),
                    decreases es.len() - i,
                {
                    if list[i].path == c.canonical {
                        assert(es.skip(i as int)[0] == es[i as int]);
                        assert(select_config(es, req) == Ok::<int, ConfigFailure>(i as int));
                        return Ok(list.remove(i));
                    }
                    assert(es.skip(i as int).skip(1) =~= es.skip(i as int + 1));
                    i = i + 1;
                }
                assert(find_path(es, c.canonical@) >= es.len());
                let paths = paths_of(&list);
                Err(ConfigError::ConfigPermissionDenied { config: c.path, entries: paths })
            },
            None => {
                if list.len() > 1 {
                    let paths = paths_of(&list);
                    return Err(ConfigError::ConfigAmbiguous { entries: paths });
                }
                Ok(list.remove(0))
            },
        }
    }

    /// The `.devcontainer/` folder of a nested or scoped configuration.
    pub fn find_dotdev(&self) -> (r: Result<String, ConfigError>)
        ensures
            match self.kind {
                ConfigKind::Nested { dotdev } => r is Ok && r->Ok_0@ == dotdev@,
                ConfigKind::Scoped { dotdev } => r is Ok && r->Ok_0@ == dotdev@,
                ConfigKind::Plain => r is Err && r->Err_0@ == ConfigFailure::DotdevNotFound,
            },
    {
        match &self.kind {
            ConfigKind::Nested { dotdev } => Ok(dotdev.clone()),
            ConfigKind::Plain => Err(ConfigError::DotdevNotFound),
            ConfigKind::Scoped { dotdev } => Ok(dotdev.clone()),
        }
    }
}

} // verus!
