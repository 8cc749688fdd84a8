use devpp::instr::CopyOptions;
use devpp::instr::Directive;
use devpp::instr::FromKind;
use devpp::instr::Instr;
use devpp::mount::BindOptions;
use devpp::mount::CacheOptions;
use devpp::mount::Mount;
use devpp::mount::SecretOptions;
use devpp::mount::Sharing;
use devpp::mount::SshOptions;
use devpp::mount::TmpfsOptions;
use devpp::run::Device;
use devpp::run::DeviceOptions;
use devpp::run::Network;
use devpp::run::RunOptions;
use devpp::run::Security;
use devpp::text::escape_str;

#[test]
fn instr_arg() {
    let instr = Instr::Arg(vec![
        (String::from("FOO"), None),
        (String::from("BAR"), Some(String::from("BAZ"))),
    ]);
    assert_eq!(instr.render(), String::from("ARG FOO BAR=\"BAZ\""));
}

#[test]
fn instr_copy() {
    let instr = Instr::Copy {
        destination: String::from("/app/baz/"),
        options: Some(CopyOptions {
            link: true,
            ..Default::default()
        }),
        source: vec![String::from("./foo/"), String::from("./bar/")],
    };
    assert_eq!(
        instr.render(),
        String::from("COPY --link [ \"./foo/\", \"./bar/\", \"/app/baz/\" ]")
    );
}

#[test]
fn instr_env() {
    let instr = Instr::Env(vec![
        (String::from("FOO"), String::from("BAR")),
        (String::from("BAZ"), String::from("QUIX")),
    ]);
    assert_eq!(instr.render(), String::from("ENV FOO=\"BAR\" BAZ=\"QUIX\""));
}

#[test]
fn instr_from() {
    let instr = Instr::From {
        kind: FromKind::Image {
            digest: Some(String::from("sha256:000")),
            image: String::from("foo/bar"),
            repo: Some(String::from("example.org")),
            tag: Some(String::from("baz")),
        },
        name: Some(String::from("test")),
        platform: Some(String::from("linux/amd64")),
    };
    assert_eq!(
        instr.render(),
        String::from("FROM --platform=linux/amd64 example.org/foo/bar:baz@sha256:000 AS test")
    );
}

#[test]
fn instr_run() {
    let instr = Instr::Run {
        command: vec![String::from("foo"), String::from("--bar=42")],
        options: Some(RunOptions {
            mount: Some(vec![Mount::Tmpfs {
                destination: String::from("/tmp/"),
                options: None,
            }]),
            ..Default::default()
        }),
    };
    assert_eq!(
        instr.render(),
        String::from("RUN --mount=type=tmpfs,destination=/tmp/ [ \"foo\", \"--bar=42\" ]")
    );
}

#[test]
fn cache_mount_locked_sharing() {
    let mount = Mount::Cache {
        destination: String::from("/var/cache"),
        options: Some(CacheOptions {
            sharing: Some(Sharing::Locked),
            ..Default::default()
        }),
    };
    assert!(mount.is_supported());
    assert_eq!(
        mount.render(),
        String::from("--mount=type=cache,destination=/var/cache,sharing=locked")
    );
}

#[test]
fn cache_mount_option_order() {
    let mount = Mount::Cache {
        destination: String::from("/c"),
        options: Some(CacheOptions {
            from: Some(FromKind::Stage(String::from("s"))),
            id: Some(String::from("x")),
            readonly: true,
            sharing: Some(Sharing::Private),
            source: Some(String::from("/src")),
            ..Default::default()
        }),
    };
    assert_eq!(
        mount.render(),
        String::from("--mount=type=cache,destination=/c,from=s,id=x,readonly,sharing=private,source=/src")
    );
}

#[test]
fn bind_mount_option_order() {
    let mount = Mount::Bind {
        destination: String::from("/d"),
        options: Some(BindOptions {
            from: Some(FromKind::Context(String::from("ctx"))),
            readwrite: true,
            source: Some(String::from("/s")),
        }),
    };
    assert_eq!(
        mount.render(),
        String::from("--mount=type=bind,destination=/d,from=ctx,readwrite,source=/s")
    );
}

#[test]
fn secret_ssh_tmpfs_mounts() {
    let secret = Mount::Secret {
        options: Some(SecretOptions {
            destination: Some(String::from("/run/s")),
            env: Some(String::from("TOKEN")),
            id: Some(String::from("tok")),
            required: true,
            ..Default::default()
        }),
    };
    assert_eq!(
        secret.render(),
        String::from("--mount=type=secret,destination=/run/s,env=TOKEN,id=tok,required")
    );
    let ssh = Mount::Ssh {
        options: Some(SshOptions {
            id: Some(String::from("default")),
            ..Default::default()
        }),
    };
    assert_eq!(ssh.render(), String::from("--mount=type=ssh,id=default"));
    let tmpfs = Mount::Tmpfs {
        destination: String::from("/t"),
        options: Some(TmpfsOptions {
            size: Some(String::from("64m")),
        }),
    };
    assert_eq!(tmpfs.render(), String::from("--mount=type=tmpfs,destination=/t,size=64m"));
}

#[test]
fn unsupported_mount_options() {
    let mount = Mount::Cache {
        destination: String::from("/c"),
        options: Some(CacheOptions {
            uid: Some(1000),
            ..Default::default()
        }),
    };
    assert!(!mount.is_supported());
    let instr = Instr::Run {
        command: vec![String::from("true")],
        options: Some(RunOptions {
            mount: Some(vec![mount]),
            ..Default::default()
        }),
    };
    assert!(!instr.is_renderable());
}

#[test]
fn run_options_order() {
    let options = RunOptions {
        device: Some(vec![Device {
            name: String::from("gpu"),
            options: Some(DeviceOptions { required: true }),
        }]),
        mount: Some(vec![Mount::Tmpfs {
            destination: String::from("/t"),
            options: None,
        }]),
        network: Some(Network::Host),
        security: Some(Security::Insecure),
    };
    assert_eq!(
        options.render(),
        String::from("gpu,--device=required --mount=type=tmpfs,destination=/t --network=host --security=insecure")
    );
    assert_eq!(Network::Disabled.render(), String::from("--network=none"));
    assert_eq!(Network::default().render(), String::from("--network="));
    assert_eq!(Security::default().render(), String::from("--security="));
    assert_eq!(Sharing::default().render(), String::from("shared"));
}

#[test]
fn from_kind_image_parts() {
    let plain = FromKind::Image {
        digest: None,
        image: String::from("alpine"),
        repo: None,
        tag: None,
    };
    assert_eq!(plain.render(), String::from("alpine"));
    let tagged = FromKind::Image {
        digest: Some(String::from("sha256:1")),
        image: String::from("alpine"),
        repo: None,
        tag: Some(String::from("3")),
    };
    assert_eq!(tagged.render(), String::from("alpine:3@sha256:1"));
    assert_eq!(FromKind::Stage(String::from("builder")).render(), String::from("builder"));
}

#[test]
fn copy_from_stage() {
    let instr = Instr::Copy {
        destination: String::from("/opt/x"),
        options: Some(CopyOptions {
            from: Some(FromKind::Stage(String::from("st"))),
            link: true,
            ..Default::default()
        }),
        source: vec![String::from("/opt/x")],
    };
    assert_eq!(
        instr.render(),
        String::from("COPY --from=st --link [ \"/opt/x\", \"/opt/x\" ]")
    );
}

#[test]
fn empty_arg_and_run_are_not_renderable() {
    assert!(!Instr::Arg(vec![]).is_renderable());
    assert!(!Instr::Env(vec![]).is_renderable());
    let run = Instr::Run {
        command: vec![],
        options: None,
    };
    assert!(!run.is_renderable());
    let copy = Instr::Copy {
        destination: String::from("/d"),
        options: None,
        source: vec![],
    };
    assert!(!copy.is_renderable());
}

#[test]
fn unsupported_instructions_are_not_renderable() {
    assert!(!Instr::Healthcheck.is_renderable());
    assert!(!Instr::Label.is_renderable());
    assert!(!Instr::User.is_renderable());
    assert!(!Instr::Directive(Directive::Syntax(String::from("x"))).is_renderable());
    let copy = Instr::Copy {
        destination: String::from("/d"),
        options: Some(CopyOptions {
            chmod: Some(String::from("755")),
            ..Default::default()
        }),
        source: vec![String::from("/s")],
    };
    assert!(!copy.is_renderable());
    assert!(Instr::Empty.is_renderable());
    assert!(Instr::Directive(Directive::Escape('`')).is_renderable());
}

#[test]
fn comment_empty_and_directive() {
    assert_eq!(Instr::Comment(String::from("hi")).render(), String::from("# hi"));
    assert_eq!(Instr::Empty.render(), String::new());
    assert_eq!(
        Instr::Directive(Directive::Escape('`')).render(),
        String::from("# escape=`")
    );
}

#[test]
fn escaping_doubles_escape_and_prefixes_quotes() {
    assert_eq!(escape_str('\\', "a\\b\"c"), String::from("\"a\\\\b\\\"c\""));
    assert_eq!(escape_str('`', "x`y\"z\\"), String::from("\"x``y`\"z\\\""));
    assert_eq!(escape_str('\\', ""), String::from("\"\""));
}

#[test]
fn escaping_round_trip_example() {
    let s = "say \"hi\" \\ bye";
    let t = escape_str('\\', s);
    let inner: Vec<char> = t[1..t.len() - 1].chars().collect();
    let mut back = String::new();
    let mut i = 0;
    while i < inner.len() {
        if inner[i] == '\\' && i + 1 < inner.len() {
            back.push(inner[i + 1]);
            i += 2;
        } else {
            back.push(inner[i]);
            i += 1;
        }
    }
    assert_eq!(back, s);
}

#[test]
fn display_with_escape_character() {
    let instr = Instr::Env(vec![(String::from("K"), String::from("a`b"))]);
    assert_eq!(instr.display(Some('`')).render(), String::from("ENV K=\"a``b\""));
    assert_eq!(instr.display(None).render(), String::from("ENV K=\"a`b\""));
}

#[test]
fn mount_with_empty_options_has_no_trailing_comma() {
    let cache = Mount::Cache {
        destination: String::from("/x"),
        options: Some(CacheOptions::default()),
    };
    assert_eq!(cache.render(), String::from("--mount=type=cache,destination=/x"));
    let bind = Mount::Bind {
        destination: String::from("/b"),
        options: Some(BindOptions::default()),
    };
    assert_eq!(bind.render(), String::from("--mount=type=bind,destination=/b"));
    let secret = Mount::Secret {
        options: Some(SecretOptions::default()),
    };
    assert_eq!(secret.render(), String::from("--mount=type=secret"));
    let ssh = Mount::Ssh {
        options: Some(SshOptions::default()),
    };
    assert_eq!(ssh.render(), String::from("--mount=type=ssh"));
    let tmpfs = Mount::Tmpfs {
        destination: String::from("/t"),
        options: Some(TmpfsOptions::default()),
    };
    assert_eq!(tmpfs.render(), String::from("--mount=type=tmpfs,destination=/t"));
}

#[test]
fn empty_copy_and_run_options_keep_the_space() {
    let copy = Instr::Copy {
        destination: String::from("/d"),
        options: Some(CopyOptions::default()),
        source: vec![String::from("/s")],
    };
    assert_eq!(copy.render(), String::from("COPY  [ \"/s\", \"/d\" ]"));
    let run = Instr::Run {
        command: vec![String::from("true")],
        options: Some(RunOptions::default()),
    };
    assert_eq!(run.render(), String::from("RUN  [ \"true\" ]"));
}
