use devpp::compose::build;
use devpp::compose::compose;
use devpp::compose::IsImage;
use devpp::compose::BuildError;
use devpp::feature::option_arg;
use devpp::feature::CacheMount;
use devpp::feature::Customizations;
use devpp::feature::Entry;
use devpp::feature::Feature;
use devpp::feature::FeatureOption;
use devpp::feature::Script;
use devpp::feature::ScriptError;
use devpp::instr::Instr;
use devpp::mount::Sharing;

const HELP_MOBY: &str = "# @help: https://github.com/moby/buildkit/blob/dockerfile/1.20.0-labs/frontend/dockerfile/docs/reference.md";
const HELP_CONTAINERS: &str = "# @help: https://github.com/containers/common/blob/main/docs/Containerfile.5.md";
const ACQUIRE: &str = "# @see: [acquire.sh](https://github.com/devcontainers/spec/issues/21)";

fn feature(id: &str, after: &[&str]) -> Feature {
    Feature {
        id: id.to_string(),
        installs_after: after.iter().map(|x| x.to_string()).collect(),
        options: vec![],
        container_env: vec![],
        entrypoint: Script {
            dir: format!("features/{id}"),
            file: String::from("install.sh"),
        },
        merger: None,
        customizations: Customizations {
            merge: false,
            mounts: vec![],
        },
    }
}

fn entry(feature: Feature) -> Entry {
    Entry {
        feature,
        options: vec![],
    }
}

fn text(lines: &[&str]) -> String {
    let mut s = String::new();
    for l in lines {
        s.push_str(l);
        s.push('\n');
    }
    s
}

fn run_line(id: &str) -> String {
    format!("RUN --mount=type=bind,destination=/features/,source=features/{id} [ \"sh\", \"/features/install.sh\" ]")
}

fn copy_line(id: &str) -> String {
    format!("COPY --from=devpp-feature-{id} --link [ \"/opt/{id}\", \"/opt/{id}\" ]")
}

#[test]
fn end_to_end_two_features() {
    let mut base_tool = feature("base-tool", &[]);
    base_tool.options.push(FeatureOption {
        name: String::from("version"),
        default: String::from("1.0"),
        description: None,
    });
    let extra_tool = feature("extra-tool", &["base-tool"]);
    let entries = vec![entry(base_tool), entry(extra_tool)];
    let out = build(&entries, &IsImage::Image {
        image: String::from("alpine"),
        target: Some(String::from("dev")),
    }).unwrap();
    let expected = text(&[
        HELP_MOBY,
        HELP_CONTAINERS,
        "",
        "FROM alpine AS devpp-base",
        "",
        "FROM devpp-base AS devpp-feature-base-tool",
        "",
        "ARG VERSION=\"1.0\"",
        &run_line("base-tool"),
        "",
        "FROM devpp-base AS devpp-feature-extra-tool",
        "",
        ACQUIRE,
        &copy_line("base-tool"),
        "",
        &run_line("extra-tool"),
        "",
        "FROM devpp-base AS dev",
        "",
        ACQUIRE,
        &copy_line("base-tool"),
        "",
        ACQUIRE,
        &copy_line("extra-tool"),
    ]);
    assert_eq!(out, expected);
}

#[test]
fn dependency_order_not_input_order() {
    let entries = vec![entry(feature("a", &["b"])), entry(feature("b", &[]))];
    let out = build(&entries, &IsImage::Image {
        image: String::from("alpine"),
        target: None,
    }).unwrap();
    let b_stage = out.find("AS devpp-feature-b").unwrap();
    let a_stage = out.find("AS devpp-feature-a").unwrap();
    assert!(b_stage < a_stage);
}

#[test]
fn build_is_deterministic() {
    let entries = vec![entry(feature("x", &[])), entry(feature("y", &["x"]))];
    let base = IsImage::Image {
        image: String::from("debian"),
        target: None,
    };
    assert_eq!(build(&entries, &base).unwrap(), build(&entries, &base).unwrap());
}

#[test]
fn compose_cycle_is_an_error() {
    let entries = vec![entry(feature("a", &["b"])), entry(feature("b", &["a"]))];
    assert!(matches!(
        compose(&entries, &IsImage::Image {
        image: String::from("alpine"),
        target: None,
    }),
        Err(BuildError::GraphCycle)
    ));
}

#[test]
fn compose_missing_dependency() {
    let entries = vec![entry(feature("a", &["nope"]))];
    match compose(&entries, &IsImage::Image {
        image: String::from("alpine"),
        target: None,
    }) {
        Err(BuildError::FeatureNotFound(id)) => assert_eq!(id, "nope"),
        other => panic!("{other:?}"),
    }
}

#[test]
fn compose_nested_merge_is_an_error() {
    let mut m = feature("m", &["a"]);
    m.customizations.merge = true;
    let entries = vec![entry(feature("a", &[])), entry(m)];
    assert!(matches!(
        compose(&entries, &IsImage::Image {
        image: String::from("alpine"),
        target: None,
    }),
        Err(BuildError::NestedMergeNotSupported)
    ));
}

#[test]
fn merge_feature_goes_to_base_stage() {
    let mut m = feature("m", &[]);
    m.customizations.merge = true;
    let entries = vec![entry(m)];
    let out = build(&entries, &IsImage::Image {
        image: String::from("alpine"),
        target: None,
    }).unwrap();
    let expected = text(&[
        HELP_MOBY,
        HELP_CONTAINERS,
        "",
        "FROM alpine AS devpp-base",
        "",
        &run_line("m"),
        "",
        "FROM devpp-base",
    ]);
    assert_eq!(out, expected);
}

#[test]
fn dockerfile_base_with_target() {
    let entries = vec![entry(feature("a", &[]))];
    let base = IsImage::Dockerfile {
        target: Some(String::from("dev")),
    };
    let out = build(&entries, &base).unwrap();
    let expected = text(&[
        HELP_MOBY,
        HELP_CONTAINERS,
        "",
        "# @base: the base stage comes from the project's build file",
        "",
        "FROM devpp-base AS devpp-feature-a",
        "",
        &run_line("a"),
        "",
        "FROM devpp-base AS dev",
        "",
        ACQUIRE,
        &copy_line("a"),
    ]);
    assert_eq!(out, expected);
}

#[test]
fn options_env_and_mounts() {
    let mut f = feature("tool", &[]);
    f.options.push(FeatureOption {
        name: String::from("flavor"),
        default: String::from("plain"),
        description: Some(String::from("which flavor")),
    });
    f.options.push(FeatureOption {
        name: String::from("level"),
        default: String::from("1"),
        description: None,
    });
    f.container_env.push((String::from("TOOL_HOME"), String::from("/opt/tool")));
    f.customizations.mounts.push(CacheMount {
        target: String::from("/var/cache/tool"),
        sharing: Sharing::Locked,
    });
    let e = Entry {
        feature: f,
        options: vec![(String::from("level"), String::from("3 \"hot\""))],
    };
    let mut sink: Vec<Instr> = vec![];
    e.push_feature(&mut sink);
    let lines: Vec<String> = sink.iter().map(|i| i.render()).collect();
    assert_eq!(
        lines,
        vec![
            String::from("# @help(flavor): which flavor"),
            String::from("ARG FLAVOR=\"plain\" LEVEL=\"3 \\\"hot\\\"\""),
            String::from("ENV TOOL_HOME=\"/opt/tool\""),
            String::from("RUN --mount=type=bind,destination=/features/,source=features/tool --mount=type=cache,destination=/var/cache/tool,sharing=locked [ \"sh\", \"/features/install.sh\" ]"),
        ]
    );
}

#[test]
fn dependency_block_with_merger() {
    let mut f = feature("dep", &[]);
    f.merger = Some(Script {
        dir: String::from("features/dep"),
        file: String::from("configure.sh"),
    });
    f.container_env.push((String::from("DEP"), String::from("1")));
    let e = entry(f);
    let mut sink: Vec<Instr> = vec![];
    e.push_dependency(&mut sink);
    let lines: Vec<String> = sink.iter().map(|i| i.render()).collect();
    assert_eq!(
        lines,
        vec![
            String::from(ACQUIRE),
            String::from("ENV DEP=\"1\""),
            copy_line("dep"),
            String::from("RUN --mount=type=bind,destination=/features/,source=features/dep [ \"sh\", \"/features/configure.sh\" ]"),
        ]
    );
}

#[test]
fn entry_names_and_flags() {
    let mut f = feature("z", &[]);
    f.customizations.merge = true;
    let e = entry(f);
    assert_eq!(e.get_feature_id(), String::from("devpp-feature-z"));
    assert!(e.is_merge());
    assert!(e.get_devpp_mounts().is_empty());
}

#[test]
fn option_arg_uses_override_or_default() {
    let o = FeatureOption {
        name: String::from("v"),
        default: String::from("d"),
        description: None,
    };
    let none: Vec<(String, String)> = vec![];
    assert_eq!(
        option_arg(String::from("V"), &o, &none),
        (String::from("V"), Some(String::from("d")))
    );
    let chosen = vec![
        (String::from("w"), String::from("x")),
        (String::from("v"), String::from("y")),
    ];
    assert_eq!(
        option_arg(String::from("V"), &o, &chosen),
        (String::from("V"), Some(String::from("y")))
    );
}

#[test]
fn option_names_are_upper_cased() {
    let mut f = feature("u", &[]);
    f.options.push(FeatureOption {
        name: String::from("installZsh"),
        default: String::from("true"),
        description: None,
    });
    let e = entry(f);
    let mut sink: Vec<Instr> = vec![];
    e.push_args(&mut sink);
    assert_eq!(sink.len(), 1);
    assert_eq!(sink[0].render(), String::from("ARG INSTALLZSH=\"true\""));
}

#[test]
fn script_located_relative_to_context() {
    let s = Script::locate("/w/.devcontainer/tool/install.sh", "/w").unwrap();
    assert_eq!(s.dir, ".devcontainer/tool");
    assert_eq!(s.file, "install.sh");
    let s = Script::locate("/w/install.sh", "/w").unwrap();
    assert_eq!(s.dir, "");
    assert_eq!(s.file, "install.sh");
    let s = Script::locate("/x/y.sh", "/").unwrap();
    assert_eq!(s.dir, "x");
    assert_eq!(s.file, "y.sh");
}

#[test]
fn script_outside_context_or_without_file() {
    assert!(matches!(Script::locate("/wx/a.sh", "/w"), Err(ScriptError::OutsideContext)));
    assert!(matches!(Script::locate("/other/a.sh", "/w"), Err(ScriptError::OutsideContext)));
    assert!(matches!(Script::locate("install.sh", "/w"), Err(ScriptError::NotAFile)));
    assert!(matches!(Script::locate("/w/dir/", "/w"), Err(ScriptError::NotAFile)));
}
