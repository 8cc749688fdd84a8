use devpp::patch::find_stage;
use devpp::patch::BaseFile;
use devpp::patch::PatchError;
use dockerfile_parser_rs::Instruction;

fn aliases(v: &[Option<Option<&str>>]) -> Vec<Option<Option<String>>> {
    v.iter().map(|x| x.map(|a| a.map(String::from))).collect()
}

#[test]
fn find_stage_bounds() {
    let lines = aliases(&[Some(Some("build")), None, Some(Some("dev")), None, None, Some(None), None]);
    assert_eq!(find_stage(&lines, &String::from("dev")).unwrap(), (2, 5));
    assert_eq!(find_stage(&lines, &String::from("build")).unwrap(), (0, 2));
    assert!(matches!(find_stage(&lines, &String::from("nope")), Err(PatchError::StageNotFound)));
}

#[test]
fn find_stage_last_stage_runs_to_end() {
    let lines = aliases(&[Some(None), Some(Some("dev")), None]);
    assert_eq!(find_stage(&lines, &String::from("dev")).unwrap(), (1, 3));
}

#[test]
fn patch_base_renames_target_stage() {
    let text = "FROM alpine AS build\nRUN echo hi\nFROM debian AS dev\nRUN echo dev\n";
    let mut file = BaseFile::new(text, Some(String::from("dev"))).unwrap();
    file.patch_base().unwrap();
    let froms: Vec<Option<String>> = file
        .ast
        .instructions
        .iter()
        .filter_map(|i| match i {
            Instruction::From { alias, .. } => Some(alias.clone()),
            _ => None,
        })
        .collect();
    assert_eq!(froms, vec![Some(String::from("build")), Some(String::from("devpp-base"))]);
}

#[test]
fn patch_base_needs_target() {
    let mut file = BaseFile::new("FROM alpine\n", None).unwrap();
    assert!(matches!(file.patch_base(), Err(PatchError::TargetNotFound)));
    let mut file = BaseFile::new("FROM alpine AS a\n", Some(String::from("b"))).unwrap();
    assert!(matches!(file.patch_base(), Err(PatchError::StageNotFound)));
}

#[test]
fn base_file_parse_error() {
    assert!(matches!(
        BaseFile::new("BOGUS something\n", Some(String::from("dev"))),
        Err(PatchError::Parse(_))
    ));
}
