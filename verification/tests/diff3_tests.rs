use diff3::align::{match_sequence, Line, MatchingVersions};
use diff3::align::MatchingVersions::{My, MyOld, MyOldYour, MyYour, Old, OldYour, Your};
use diff3::lines::split;
use diff3::merge::{LineVariants, MergeLines, MergeOutcome, Resolution};
use diff3::output::MergeLabels;
use diff3::writers::{make_operation, EdOperation, EdWriter, NormalWriter};

fn input(ink: &str) -> Vec<Vec<u8>> {
    ink.bytes().map(|b| vec![b]).collect()
}

fn line(text: &str, versions: MatchingVersions) -> Line {
    Line {
        line: text.as_bytes().to_vec(),
        versions,
    }
}

fn make_ml(common: &[u8], my: &[u8], old: &[u8], your: &[u8]) -> MergeLines {
    MergeLines {
        common_lines: split(common),
        variants: LineVariants {
            my_lines: split(my),
            old_lines: split(old),
            your_lines: split(your),
        },
    }
}

fn merge_labels() -> MergeLabels {
    MergeLabels {
        mine: b"my_label".to_vec(),
        old: b"old_label".to_vec(),
        yours: b"your_label".to_vec(),
    }
}

#[test]
fn test_match_sequence_no_yours() {
    assert_eq!(
        vec![line("a", Old), line("b", MyOld), line("c", My)],
        match_sequence(&input("bc"), &input("ab"), &[])
    )
}

#[test]
fn test_match_sequence() {
    assert_eq!(
        vec![line("a", OldYour), line("b", MyOldYour), line("c", My)],
        match_sequence(&input("bc"), &input("ab"), &input("ab"))
    )
}

#[test]
fn test_match_ends_in_your() {
    assert_eq!(
        vec![line("a", MyOldYour), line("b", Your), line("c", Your)],
        match_sequence(&input("a"), &input("a"), &input("abc"))
    )
}

#[test]
fn test_match_my_your() {
    assert_eq!(
        vec![line("b", MyYour), line("c", MyOldYour)],
        match_sequence(&input("bc"), &input("c"), &input("bc"))
    )
}

#[test]
fn dump_conflict_old() {
    let ml = make_ml(b"common\n", b"my\n", b"old\n", b"your\n");
    let mut result = vec![];
    ml.dump(&merge_labels(), MergeOutcome::ConflictAll, &mut result);
    assert_eq!(
        String::from_utf8_lossy(&result),
        "common\n<<<<<<< my_label\nmy\n||||||| old_label\nold\n=======\nyour\n>>>>>>> your_label\n"
    );
}

#[test]
fn dump_conflict_no_old() {
    let ml = make_ml(b"common\n", b"my\n", b"old\n", b"your\n");
    let mut result = vec![];
    ml.dump(&merge_labels(), MergeOutcome::ConflictMineYours, &mut result);
    assert_eq!(
        String::from_utf8_lossy(&result),
        "common\n<<<<<<< my_label\nmy\n=======\nyour\n>>>>>>> your_label\n"
    );
}

#[test]
fn dump_my_wins() {
    let ml = make_ml(b"common\n", b"my\n", b"old\n", b"your\n");
    let mut result = vec![];
    ml.dump(&merge_labels(), MergeOutcome::MyWins, &mut result);
    assert_eq!(String::from_utf8_lossy(&result), "common\nmy\n");
}

#[test]
fn dump_your_wins() {
    let ml = make_ml(b"common\n", b"my\n", b"old\n", b"your\n");
    let mut result = vec![];
    ml.dump(&merge_labels(), MergeOutcome::YourWins, &mut result);
    assert_eq!(String::from_utf8_lossy(&result), "common\nyour\n");
}

#[test]
fn dump_fluke_agreement() {
    let ml = make_ml(b"common\n", b"my\n", b"old\n", b"your\n");
    let mut result = vec![];
    ml.dump(&merge_labels(), MergeOutcome::ConflictOldYours, &mut result);
    assert_eq!(
        String::from_utf8_lossy(&result),
        "common\n<<<<<<< old_label\nold\n=======\nyour\n>>>>>>> your_label\n"
    );
}

#[test]
fn dump_fluke_agreement_no_old() {
    let ml = make_ml(b"common\n", b"my\n", b"old\n", b"your\n");
    let mut result = vec![];
    ml.dump(&merge_labels(), MergeOutcome::ConflictOldYours, &mut result);
    assert_eq!(
        String::from_utf8_lossy(&result),
        "common\n<<<<<<< old_label\nold\n=======\nyour\n>>>>>>> your_label\n"
    );
}

#[test]
fn calculate_merge() {
    let ml = make_ml(b"common\n", b"a\n", b"b\n", b"c\n");
    assert_eq!(
        ml.variants.calculate_merge(Resolution::BracketAll.into()),
        MergeOutcome::ConflictAll
    );
    let ml = make_ml(b"common\n", b"a\n", b"a\n", b"c\n");
    assert_eq!(
        ml.variants.calculate_merge(Resolution::BracketAll.into()),
        MergeOutcome::YourWins
    );
    let ml = make_ml(b"common\n", b"a\n", b"b\n", b"b\n");
    assert_eq!(
        ml.variants.calculate_merge(Resolution::BracketAll.into()),
        MergeOutcome::MyWins
    );
    let ml = make_ml(b"common\n", b"a\n", b"b\n", b"a\n");
    assert_eq!(
        ml.variants.calculate_merge(Resolution::BracketAll.into()),
        MergeOutcome::ConflictOldYours
    );
    let ml = make_ml(b"common\n", b"a\n", b"a\n", b"a\n");
    assert_eq!(
        ml.variants.calculate_merge(Resolution::BracketAll.into()),
        MergeOutcome::YourWins
    );
}

fn normal_output(ml: &MergeLines) -> Vec<u8> {
    let ml2 = ml.as_ref();
    let merged = vec![ml2];
    let mut writer = NormalWriter {
        merged: &merged,
        output: vec![],
        my_line_n: 0,
        old_line_n: 0,
        your_line_n: 0,
    };
    writer.write_normal();
    writer.output
}

#[test]
fn normal_writer() {
    let ml = make_ml(b"common\n", b"my\n", b"old\n", b"your\n");
    let result = normal_output(&ml);
    assert_eq!(
        String::from_utf8_lossy(&result),
        "====\n1:2c\n  my\n2:2c\n  old\n3:2c\n  your\n"
    );
}

#[test]
fn normal_writer_range() {
    let ml = make_ml(b"common\n", b"my\nthing\n", b"old\n", b"your\n");
    let result = normal_output(&ml);
    assert_eq!(
        String::from_utf8_lossy(&result),
        "====\n1:2,3c\n  my\n  thing\n2:2c\n  old\n3:2c\n  your\n"
    );
}

#[test]
fn normal_writer_add() {
    let ml = make_ml(b"common\n", b"", b"old\n", b"your\n");
    let result = normal_output(&ml);
    assert_eq!(
        String::from_utf8_lossy(&result),
        "====\n1:1a\n2:2c\n  old\n3:2c\n  your\n"
    );
}

#[test]
fn test_write_header_add() {
    let mut result = vec![];
    EdOperation::Add(1).write_header(&mut result);
    assert_eq!(String::from_utf8_lossy(&result), "1a\n");
}

#[test]
fn test_write_header_one_change() {
    let mut result = vec![];
    EdOperation::Change(1, 0).write_header(&mut result);
    assert_eq!(String::from_utf8_lossy(&result), "2c\n");
}

#[test]
fn test_write_header_range_change() {
    let mut result = vec![];
    EdOperation::Change(1, 1).write_header(&mut result);
    assert_eq!(String::from_utf8_lossy(&result), "2,3c\n");
}

#[test]
fn test_write_header_one_delete() {
    let mut result = vec![];
    EdOperation::Delete(1, 0).write_header(&mut result);
    assert_eq!(String::from_utf8_lossy(&result), "2d\n");
}

#[test]
fn test_write_header_range_delete() {
    let mut result = vec![];
    EdOperation::Delete(1, 1).write_header(&mut result);
    assert_eq!(String::from_utf8_lossy(&result), "2,3d\n");
}

#[test]
fn test_make_operation_add() {
    assert_eq!(make_operation(5, 0, false), EdOperation::Add(5));
}

#[test]
fn test_make_operation_delete() {
    assert_eq!(make_operation(5, 4, true), EdOperation::Delete(5, 3));
}

#[test]
fn test_make_operation_change() {
    assert_eq!(make_operation(5, 4, false), EdOperation::Change(5, 3));
}

fn ed_output(ml: &MergeLines) -> Vec<u8> {
    let ml2 = ml.as_ref();
    let merged = vec![ml2];
    let mut writer = EdWriter {
        merged,
        output: vec![],
    };
    writer.write(&merge_labels(), Resolution::BracketAll.into());
    writer.output
}

#[test]
fn ed_writer_aab() {
    let ml = make_ml(b"common\n", b"a\n", b"a\n", b"b\n");
    let result = ed_output(&ml);
    assert_eq!(String::from_utf8_lossy(&result), "2c\nb\n.\n");
}

#[test]
fn ed_writer_range_aab() {
    let ml = make_ml(b"common\n", b"a\na\n", b"a\na\n", b"b\n");
    let result = ed_output(&ml);
    assert_eq!(String::from_utf8_lossy(&result), "2,3c\nb\n.\n");
}

#[test]
fn ed_writer_aa_null() {
    let ml = make_ml(b"common\n", b"a\n", b"a\n", b"");
    let result = ed_output(&ml);
    assert_eq!(String::from_utf8_lossy(&result), "2d\n.\n",);
}

#[test]
fn ed_writer_aa_null_range() {
    let ml = make_ml(b"common\n", b"a\na\n", b"a\na\n", b"");
    let result = ed_output(&ml);
    assert_eq!(String::from_utf8_lossy(&result), "2,3d\n.\n",);
}

#[test]
fn ed_writer_abc() {
    let ml = make_ml(b"common\n", b"a\n", b"b\n", b"c\n");
    let result = ed_output(&ml);
    assert_eq!(
        String::from_utf8_lossy(&result),
        "2c\n<<<<<<< my_label\na\n||||||| old_label\nb\n=======\nc\n>>>>>>> your_label\n.\n"
    );
}
