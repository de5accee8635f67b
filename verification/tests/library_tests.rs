use diff3::align::{align, match_sequence, unmatched_lines, Line, MatchingVersions};
use diff3::diffing::DiffResult;
use diff3::align::MatchingVersions::{My, MyOld, MyOldYour, Your};
use diff3::lines::{copy_line, split};
use diff3::merge::MergeOutcome::{
    ConflictAll, ConflictMineYours, ConflictOldYours, MyWins, YourWins,
};
use diff3::merge::{
    make_merged, same_lines, Changed, ConcreteResolution, LineVariants, MergeLines, MergeOutcome,
    Resolution,
};
use diff3::options::{operation, parse_args, select_operation, ArgsError, Flags, Operation};
use diff3::output::{push_decimal, write_conflict, write_lines, write_merge, MergeLabels};
use diff3::run::{ed_positions_fit, three_way_output};
use diff3::writers::{EdWriter, NormalWriter};

fn lines(text: &str) -> Vec<Vec<u8>> {
    split(text.as_bytes())
}

fn line(text: &str, versions: MatchingVersions) -> Line {
    Line {
        line: text.as_bytes().to_vec(),
        versions,
    }
}

fn labels() -> MergeLabels {
    MergeLabels {
        mine: b"mine".to_vec(),
        old: b"older".to_vec(),
        yours: b"yours".to_vec(),
    }
}

fn variants(my: &str, old: &str, your: &str) -> LineVariants {
    LineVariants {
        my_lines: lines(my),
        old_lines: lines(old),
        your_lines: lines(your),
    }
}

fn run(op: Operation, my: &str, old: &str, your: &str) -> String {
    let out = three_way_output(op, &labels(), &variants(my, old, your)).expect("fits");
    String::from_utf8(out).unwrap()
}

#[test]
fn split_keeps_newlines_and_a_last_partial_line() {
    assert_eq!(split(b"a\nb"), vec![b"a\n".to_vec(), b"b".to_vec()]);
    assert_eq!(split(b"a\nb\n"), vec![b"a\n".to_vec(), b"b\n".to_vec()]);
    assert_eq!(split(b"\n\n"), vec![b"\n".to_vec(), b"\n".to_vec()]);
    assert_eq!(split(b""), Vec::<Vec<u8>>::new());
}

#[test]
fn copy_line_copies() {
    assert_eq!(copy_line(&b"xyz\n".to_vec()), b"xyz\n".to_vec());
}

#[test]
fn as_tuple_and_render() {
    assert_eq!(MatchingVersions::MyOld.as_tuple(), (true, true, false));
    assert_eq!(MatchingVersions::Your.as_tuple(), (false, false, true));
    assert_eq!(line("x\n", MatchingVersions::MyOld).render(), b"<!  x\n".to_vec());
    assert_eq!(line("x\n", MatchingVersions::Your).render(), b"  > x\n".to_vec());
    assert_eq!(line("x\n", MatchingVersions::MyOldYour).render(), b"<!> x\n".to_vec());
}

#[test]
fn match_sequence_conflict() {
    let my = lines("a\nX\nc\n");
    let old = lines("a\nb\nc\n");
    let your = lines("a\nY\nc\n");
    assert_eq!(
        match_sequence(&my, &old, &your),
        vec![
            line("a\n", MatchingVersions::MyOldYour),
            line("X\n", MatchingVersions::My),
            line("b\n", MatchingVersions::Old),
            line("Y\n", MatchingVersions::Your),
            line("c\n", MatchingVersions::MyOldYour),
        ]
    );
}

#[test]
fn match_sequence_only_yours_changed() {
    let same = lines("a\nb\nc\n");
    let your = lines("a\nB\nc\n");
    assert_eq!(
        match_sequence(&same, &same, &your),
        vec![
            line("a\n", MatchingVersions::MyOldYour),
            line("b\n", MatchingVersions::MyOld),
            line("B\n", MatchingVersions::Your),
            line("c\n", MatchingVersions::MyOldYour),
        ]
    );
}

#[test]
fn match_sequence_empty_files() {
    assert_eq!(match_sequence(&[], &[], &[]), Vec::<Line>::new());
}

#[test]
fn make_merged_groups_hunks() {
    let merged = make_merged(vec![
        line("a", MyOldYour),
        line("b", MyOld),
        line("c", Your),
        line("d", MyOldYour),
        line("e", MyOldYour),
    ]);
    assert_eq!(merged.len(), 2);
    assert_eq!(merged[0].common_lines, vec![b"a".to_vec()]);
    assert_eq!(merged[0].variants.my_lines, vec![b"b".to_vec()]);
    assert_eq!(merged[0].variants.old_lines, vec![b"b".to_vec()]);
    assert_eq!(merged[0].variants.your_lines, vec![b"c".to_vec()]);
    assert_eq!(merged[1].common_lines, vec![b"d".to_vec(), b"e".to_vec()]);
    assert!(!merged[1].variants.has_conflict());

    let merged = make_merged(vec![line("x", My), line("y", MyOldYour)]);
    assert_eq!(merged.len(), 2);
    assert!(merged[0].common_lines.is_empty());
    assert_eq!(merged[0].variants.my_lines, vec![b"x".to_vec()]);
    assert_eq!(merged[1].common_lines, vec![b"y".to_vec()]);

    assert_eq!(make_merged(vec![]).len(), 0);
}

#[test]
fn variants_changes() {
    assert_eq!(variants("a\n", "a\n", "b\n").infer_changes(), Changed::Your);
    assert_eq!(variants("a\n", "b\n", "b\n").infer_changes(), Changed::Mine);
    assert_eq!(variants("a\n", "b\n", "a\n").infer_changes(), Changed::YourMineSame);
    assert_eq!(variants("a\n", "b\n", "c\n").infer_changes(), Changed::YourMine);
    assert!(!variants("", "", "").has_conflict());
    assert!(variants("", "x\n", "").has_conflict());
    assert!(same_lines(&lines("a\nb\n"), &lines("a\nb\n")));
    assert!(!same_lines(&lines("a\nb\n"), &lines("a\nc\n")));
    assert!(!same_lines(&lines("a\n"), &lines("a\nb\n")));
}

#[test]
fn concrete_resolutions() {
    let table = [
        (Resolution::PickNonOverlap, YourWins, YourWins, MyWins),
        (Resolution::BracketOverlap, YourWins, YourWins, ConflictMineYours),
        (Resolution::PickYour, YourWins, YourWins, YourWins),
        (Resolution::PickOverlap, MyWins, MyWins, YourWins),
        (Resolution::PickOverlapBracketConflicts, MyWins, YourWins, YourWins),
        (Resolution::BracketAll, YourWins, ConflictOldYours, ConflictAll),
    ];
    for (resolution, only_your, conflict, overlap) in table {
        assert_eq!(
            ConcreteResolution::from(resolution),
            ConcreteResolution {
                only_your,
                conflict,
                overlap
            }
        );
    }
}

#[test]
fn as_ref_copies_hunks() {
    let hunk = MergeLines {
        common_lines: lines("c\n"),
        variants: variants("m\n", "o\n", "y\n"),
    };
    let copy = hunk.as_ref();
    assert_eq!(copy.common_lines, hunk.common_lines);
    assert_eq!(copy.variants.my_lines, hunk.variants.my_lines);
    assert_eq!(copy.variants.old_lines, hunk.variants.old_lines);
    assert_eq!(copy.variants.your_lines, hunk.variants.your_lines);
    let empty = MergeLines::new();
    assert!(empty.common_lines.is_empty());
    assert!(!empty.variants.has_conflict());
}

#[test]
fn decimal_digits() {
    let mut out = vec![];
    push_decimal(&mut out, 0);
    out.push(b' ');
    push_decimal(&mut out, 9);
    out.push(b' ');
    push_decimal(&mut out, 10);
    out.push(b' ');
    push_decimal(&mut out, 12345);
    assert_eq!(String::from_utf8(out).unwrap(), "0 9 10 12345");
}

#[test]
fn lines_with_prefix_and_conflicts() {
    let mut out = vec![];
    write_lines(&lines("a\nb\n"), b"> ", &mut out);
    assert_eq!(String::from_utf8_lossy(&out), "> a\n> b\n");
    let mut out = vec![];
    write_conflict(
        (&lines("m\n"), &b"M".to_vec()),
        None,
        (&lines(""), &b"Y".to_vec()),
        &mut out,
    );
    assert_eq!(String::from_utf8_lossy(&out), "<<<<<<< M\nm\n=======\n>>>>>>> Y\n");
}

#[test]
fn merge_of_several_hunks() {
    let merged = make_merged(match_sequence(
        &lines("a\nX\nc\nd\ne\n"),
        &lines("a\nb\nc\nd\ne\n"),
        &lines("a\nb\nc\nD\ne\n"),
    ));
    let mut out = vec![];
    write_merge(merged, &labels(), Resolution::BracketAll, &mut out);
    assert_eq!(String::from_utf8_lossy(&out), "a\nX\nc\nD\ne\n");
}

#[test]
fn merge_conflict_brackets_all_three() {
    assert_eq!(
        run(
            Operation::Merge(Resolution::BracketAll),
            "a\nX\nc\n",
            "a\nb\nc\n",
            "a\nY\nc\n"
        ),
        "a\n<<<<<<< mine\nX\n||||||| older\nb\n=======\nY\n>>>>>>> yours\nc\n"
    );
    assert_eq!(
        run(
            Operation::Merge(Resolution::BracketOverlap),
            "a\nX\nc\n",
            "a\nb\nc\n",
            "a\nY\nc\n"
        ),
        "a\n<<<<<<< mine\nX\n=======\nY\n>>>>>>> yours\nc\n"
    );
    assert_eq!(
        run(
            Operation::Merge(Resolution::PickNonOverlap),
            "a\nX\nc\n",
            "a\nb\nc\n",
            "a\nY\nc\n"
        ),
        "a\nX\nc\n"
    );
}

#[test]
fn merge_with_mine_unchanged_gives_yours() {
    for resolution in [
        Resolution::PickNonOverlap,
        Resolution::BracketOverlap,
        Resolution::PickYour,
        Resolution::BracketAll,
    ] {
        assert_eq!(
            run(Operation::Merge(resolution), "a\nb\n", "a\nb\n", "a\nc\nd\n"),
            "a\nc\nd\n"
        );
    }
}

#[test]
fn merge_with_yours_unchanged_gives_mine() {
    for resolution in [
        Resolution::PickNonOverlap,
        Resolution::BracketOverlap,
        Resolution::PickYour,
        Resolution::PickOverlap,
        Resolution::PickOverlapBracketConflicts,
        Resolution::BracketAll,
    ] {
        assert_eq!(
            run(Operation::Merge(resolution), "x\nb\ny", "a\nb\n", "a\nb\n"),
            "x\nb\ny"
        );
    }
}

#[test]
fn normal_format_of_equal_files_is_empty() {
    assert_eq!(run(Operation::Normal, "a\nb\n", "a\nb\n", "a\nb\n"), "");
}

#[test]
fn normal_format_names_the_changed_version() {
    assert_eq!(
        run(Operation::Normal, "a\nb\nc\n", "a\nb\nc\n", "a\nB\nc\n"),
        "====3\n1:2c\n2:2c\n  b\n3:2c\n  B\n"
    );
    assert_eq!(
        run(Operation::Normal, "a\nX\nc\n", "a\nb\nc\n", "a\nY\nc\n"),
        "====\n1:2c\n  X\n2:2c\n  b\n3:2c\n  Y\n"
    );
}

#[test]
fn normal_writer_counts_lines() {
    let merged = make_merged(match_sequence(
        &lines("a\nX\nc\n"),
        &lines("a\nb\nc\n"),
        &lines("a\nb\nc\nd\n"),
    ));
    let mut writer = NormalWriter {
        merged: &merged,
        output: vec![],
        my_line_n: 0,
        old_line_n: 0,
        your_line_n: 0,
    };
    writer.write_normal();
    assert_eq!(
        (writer.my_line_n, writer.old_line_n, writer.your_line_n),
        (3, 3, 4)
    );
    assert_eq!(
        String::from_utf8_lossy(&writer.output),
        "====1\n1:2c\n  X\n2:2c\n3:2c\n  b\n====3\n1:3a\n2:3a\n3:4c\n  d\n"
    );
}

#[test]
fn ed_script_appends_after_trailing_common_lines() {
    assert_eq!(
        run(
            Operation::Ed(Resolution::BracketAll, false),
            "a\nb\nc\n",
            "a\nb\nc\n",
            "a\nB\nc\n"
        ),
        "2c\nB\n.\n3a\n.\n"
    );
}

#[test]
fn ed_writer_skips_hunks_mine_wins() {
    let merged = make_merged(match_sequence(
        &lines("a\nX\n"),
        &lines("a\nb\n"),
        &lines("a\nb\n"),
    ));
    assert!(ed_positions_fit(&merged, Resolution::BracketAll.into()));
    let mut writer = EdWriter {
        merged,
        output: vec![],
    };
    writer.write(&labels(), Resolution::BracketAll.into());
    assert_eq!(String::from_utf8_lossy(&writer.output), "");
}

fn args(list: &[&str]) -> Vec<Vec<u8>> {
    list.iter().map(|a| a.as_bytes().to_vec()).collect()
}

#[test]
fn parse_arguments() {
    let (flags, files) = parse_args(&args(&["-m", "x", "--show-all", "y", "z", "-e", "w"])).unwrap();
    assert!(flags.merge && flags.show_all && !flags.ed);
    assert_eq!(files, args(&["x", "y", "z"]));
    assert_eq!(
        select_operation(&flags),
        Some(Operation::Merge(Resolution::BracketAll))
    );
    assert_eq!(parse_args(&args(&["a", "-3", "b"])), Err(ArgsError::MissingOperand));
    assert_eq!(parse_args(&args(&[])), Err(ArgsError::MissingOperand));
}

#[test]
fn select_operations() {
    let mut flags = Flags::new();
    assert_eq!(select_operation(&flags), Some(Operation::Normal));
    flags.merge = true;
    assert_eq!(
        select_operation(&flags),
        Some(Operation::Merge(Resolution::BracketAll))
    );
    let mut flags = Flags::new();
    flags.ed = true;
    flags.ed_wq = true;
    assert_eq!(
        select_operation(&flags),
        Some(Operation::Ed(Resolution::PickYour, true))
    );
    let mut flags = Flags::new();
    flags.overlap_only = true;
    flags.merge = true;
    assert_eq!(
        select_operation(&flags),
        Some(Operation::Merge(Resolution::PickOverlap))
    );
    let mut flags = Flags::new();
    flags.show_all = true;
    flags.show_overlap = true;
    assert_eq!(select_operation(&flags), None);
    assert_eq!(
        operation(Resolution::PickNonOverlap, false, false),
        Operation::Ed(Resolution::PickNonOverlap, false)
    );
}

#[test]
fn align_cuts_chunks_at_older_lines() {
    let a = b"a\n".to_vec();
    let x = b"x\n".to_vec();
    let y = b"y\n".to_vec();
    let my_old = vec![DiffResult::Left(&x), DiffResult::Both(&a, &a)];
    let old_your = vec![DiffResult::Right(&y), DiffResult::Both(&a, &a)];
    let chunks = align(&my_old, &old_your);
    assert_eq!(chunks.len(), 2);
    assert_eq!(chunks[0].left, vec![x.clone()]);
    assert_eq!(chunks[0].right, vec![y.clone()]);
    assert_eq!(
        chunks[0].anchor,
        Some(line("a\n", MatchingVersions::MyOldYour))
    );
    assert!(chunks[1].left.is_empty() && chunks[1].right.is_empty());
    assert_eq!(chunks[1].anchor, None);
    let script = vec![DiffResult::Left(&x), DiffResult::Both(&a, &a), DiffResult::Right(&y)];
    assert_eq!(
        unmatched_lines(&script),
        vec![line("x\n", My), line("a\n", MatchingVersions::MyYour), line("y\n", Your)]
    );
}

#[test]
fn alignment_keeps_every_version() {
    let my = lines("a\nX\nc\nd\n");
    let old = lines("a\nb\nc\n");
    let your = lines("z\na\nb\nY\n");
    let aligned = match_sequence(&my, &old, &your);
    let side = |pick: fn(&MatchingVersions) -> bool| -> Vec<Vec<u8>> {
        aligned
            .iter()
            .filter(|l| pick(&l.versions))
            .map(|l| l.line.clone())
            .collect()
    };
    assert_eq!(side(|v| v.as_tuple().0), my);
    assert_eq!(side(|v| v.as_tuple().1), old);
    assert_eq!(side(|v| v.as_tuple().2), your);
}

#[test]
fn resolutions_keep_their_promises() {
    let stretches = [
        variants("a\n", "a\n", "b\n"),
        variants("a\n", "b\n", "b\n"),
        variants("a\n", "b\n", "a\n"),
        variants("a\n", "b\n", "c\n"),
    ];
    for v in &stretches {
        let outcome = v.calculate_merge(Resolution::PickYour.into());
        assert!(outcome == MyWins || outcome == YourWins);
    }
    assert_eq!(stretches[1].calculate_merge(Resolution::PickOverlap.into()), MyWins);
    assert_eq!(
        stretches[2].calculate_merge(Resolution::BracketAll.into()),
        ConflictOldYours
    );
    assert_eq!(stretches[3].calculate_merge(Resolution::BracketAll.into()), ConflictAll);
    assert_eq!(
        stretches[3].calculate_merge(Resolution::BracketOverlap.into()),
        ConflictMineYours
    );
}
