use devpp::containerfile::Containerfile;
use devpp::instr::Directive;
use devpp::instr::Instr;

#[test]
fn containerfile() {
    let mut cf = Containerfile::default();
    cf.push(Instr::Directive(Directive::Escape('`')));
    cf.push(Instr::Arg(vec![(String::from("foo"), Some(String::from("test`123")))]));
    assert_eq!(cf.render(), String::from("# escape=`\nARG foo=\"test``123\"\n"));
}

#[test]
fn containerfile_default_escape() {
    let mut cf = Containerfile::default();
    cf.push(Instr::Comment(String::from("c")));
    cf.push(Instr::Empty);
    cf.push(Instr::Env(vec![(String::from("P"), String::from("a\\b"))]));
    assert_eq!(cf.escape(), '\\');
    assert_eq!(cf.render(), String::from("# c\n\nENV P=\"a\\\\b\"\n"));
}

#[test]
fn containerfile_escape_applies_to_whole_file() {
    let mut cf = Containerfile::default();
    cf.push(Instr::Env(vec![(String::from("A"), String::from("x`y"))]));
    cf.push(Instr::Directive(Directive::Escape('`')));
    assert_eq!(cf.escape(), '`');
    assert_eq!(cf.render(), String::from("ENV A=\"x``y\"\n# escape=`\n"));
}

#[test]
fn containerfile_append_moves_instructions() {
    let mut cf = Containerfile::default();
    cf.push(Instr::Comment(String::from("a")));
    let mut more = vec![Instr::Comment(String::from("b")), Instr::Comment(String::from("c"))];
    cf.append(&mut more);
    assert!(more.is_empty());
    assert_eq!(cf.0.len(), 3);
    assert_eq!(cf.render(), String::from("# a\n# b\n# c\n"));
}
