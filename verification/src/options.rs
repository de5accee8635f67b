//! The command line: which options set which flags, and which output the
//! flags select.

use vstd::prelude::*;
use vstd::string::StringSliceAdditionalSpecFns;

use crate::lines::lines_view;
use crate::merge::Resolution;

verus! {

/// What the tool writes.
#[derive(Clone, Copy, Debug, PartialEq, Eq, Structural)]
pub enum Operation {
    /// The normal, default format.
    Normal,
    /// An ed script, with the resolution, and whether `-i` asked for the `w`
    /// and `q` commands.
    Ed(Resolution, bool),
    /// The merged file.
    Merge(Resolution),
}

/// The operation for a resolution: a merge when `-m` was given, else an ed
/// script.
pub open spec fn spec_operation(resolution: Resolution, merge: bool, wq: bool) -> Operation {
    if merge {
        Operation::Merge(resolution)
    } else {
        Operation::Ed(resolution, wq)
    }
}

/// The operation for a resolution.
pub fn operation(resolution: Resolution, merge: bool, wq: bool) -> (op: Operation)
    ensures
        op == spec_operation(resolution, merge, wq),
{
    if merge {
        Operation::Merge(resolution)
    } else {
        Operation::Ed(resolution, wq)
    }
}

/// The flags that the options set.
#[derive(Clone, Copy, Debug, PartialEq, Eq, Structural)]
pub struct Flags {
    pub show_overlap: bool,
    pub ed: bool,
    pub merge: bool,
    pub show_all: bool,
    pub overlap_only: bool,
    pub overlap_only_bracket: bool,
    pub easy_only: bool,
    pub ed_wq: bool,
}

/// The flags before any option.
pub open spec fn no_flags() -> Flags {
    Flags {
        show_overlap: false,
        ed: false,
        merge: false,
        show_all: false,
        overlap_only: false,
        overlap_only_bracket: false,
        easy_only: false,
        ed_wq: false,
    }
}

/// The options the tool knows.
#[derive(Clone, Copy, Debug, PartialEq, Eq, Structural)]
pub enum CliOption {
    /// `-A`, `--show-all`
    ShowAll,
    /// `-e`, `--ed`
    Ed,
    /// `-E`, `--show-overlap`
    ShowOverlap,
    /// `-m`, `--merge`
    Merge,
    /// `-3`, `--easy-only`
    EasyOnly,
    /// `-x`, `--overlap-only`
    OverlapOnly,
    /// `-X`
    OverlapOnlyBracket,
    /// `-i`
    EdWq,
}

/// The option an argument spells, if any; any other argument names a file.
pub open spec fn option_of(arg: Seq<u8>) -> Option<CliOption> {
    if arg == "-A".spec_bytes() || arg == "--show-all".spec_bytes() {
        Some(CliOption::ShowAll)
    } else if arg == "-e".spec_bytes() || arg == "--ed".spec_bytes() {
        Some(CliOption::Ed)
    } else if arg == "-E".spec_bytes() || arg == "--show-overlap".spec_bytes() {
        Some(CliOption::ShowOverlap)
    } else if arg == "-m".spec_bytes() || arg == "--merge".spec_bytes() {
        Some(CliOption::Merge)
    } else if arg == "-3".spec_bytes() || arg == "--easy-only".spec_bytes() {
        Some(CliOption::EasyOnly)
    } else if arg == "-x".spec_bytes() || arg == "--overlap-only".spec_bytes() {
        Some(CliOption::OverlapOnly)
    } else if arg == "-X".spec_bytes() {
        Some(CliOption::OverlapOnlyBracket)
    } else if arg == "-i".spec_bytes() {
        Some(CliOption::EdWq)
    } else {
        None
    }
}

/// The bytes of an ASCII string literal.
proof fn lemma_ascii_bytes(s: &str)
    requires
        vstd::string::is_ascii(s),
    ensures
        s.spec_bytes() == Seq::new(s@.len(), |i: int| s@[i] as u8),
{
    broadcast use vstd::string::is_ascii_spec_bytes;

}

/// How each option is spelled: `-A` and `--show-all` show all changes
/// bracketing conflicts, `-e` and `--ed` ask for an ed script of all changes,
/// `-E` and `--show-overlap` bracket the overlapping ones, `-m` and `--merge`
/// ask for the merged file, `-3` and `--easy-only` keep the changes that do not
/// overlap, `-x` and `--overlap-only` keep only the overlapping ones, `-X` also
/// brackets them, and `-i` asks for the ed commands to write and quit.
pub proof fn lemma_option_spellings()
    ensures
        option_of(seq![45u8, 65u8]) == Some(CliOption::ShowAll),
        option_of(seq![45u8, 101u8]) == Some(CliOption::Ed),
        option_of(seq![45u8, 69u8]) == Some(CliOption::ShowOverlap),
        option_of(seq![45u8, 109u8]) == Some(CliOption::Merge),
        option_of(seq![45u8, 51u8]) == Some(CliOption::EasyOnly),
        option_of(seq![45u8, 120u8]) == Some(CliOption::OverlapOnly),
        option_of(seq![45u8, 88u8]) == Some(CliOption::OverlapOnlyBracket),
        option_of(seq![45u8, 105u8]) == Some(CliOption::EdWq),
        option_of("--show-all".spec_bytes()) == Some(CliOption::ShowAll),
        option_of("--ed".spec_bytes()) == Some(CliOption::Ed),
        option_of("--show-overlap".spec_bytes()) == Some(CliOption::ShowOverlap),
        option_of("--merge".spec_bytes()) == Some(CliOption::Merge),
        option_of("--easy-only".spec_bytes()) == Some(CliOption::EasyOnly),
        option_of("--overlap-only".spec_bytes()) == Some(CliOption::OverlapOnly),
        option_of(seq![109u8, 105u8, 110u8, 101u8]) == None::<CliOption>,
{
    reveal_strlit("-A");
    reveal_strlit("-e");
    reveal_strlit("-E");
    reveal_strlit("-m");
    reveal_strlit("-3");
    reveal_strlit("-x");
    reveal_strlit("-X");
    reveal_strlit("-i");
    reveal_strlit("--show-all");
    reveal_strlit("--ed");
    reveal_strlit("--show-overlap");
    reveal_strlit("--merge");
    reveal_strlit("--easy-only");
    reveal_strlit("--overlap-only");
    lemma_ascii_bytes("-A");
    lemma_ascii_bytes("-e");
    lemma_ascii_bytes("-E");
    lemma_ascii_bytes("-m");
    lemma_ascii_bytes("-3");
    lemma_ascii_bytes("-x");
    lemma_ascii_bytes("-X");
    lemma_ascii_bytes("-i");
    lemma_ascii_bytes("--show-all");
    lemma_ascii_bytes("--ed");
    lemma_ascii_bytes("--show-overlap");
    lemma_ascii_bytes("--merge");
    lemma_ascii_bytes("--easy-only");
    lemma_ascii_bytes("--overlap-only");
    assert("-A".spec_bytes() =~= seq![45u8, 65u8]);
    assert("-e".spec_bytes() =~= seq![45u8, 101u8]);
    assert("-E".spec_bytes() =~= seq![45u8, 69u8]);
    assert("-m".spec_bytes() =~= seq![45u8, 109u8]);
    assert("-3".spec_bytes() =~= seq![45u8, 51u8]);
    assert("-x".spec_bytes() =~= seq![45u8, 120u8]);
    assert("-X".spec_bytes() =~= seq![45u8, 88u8]);
    assert("-i".spec_bytes() =~= seq![45u8, 105u8]);
    assert("--show-all".spec_bytes().len() == 10);
    assert("--ed".spec_bytes().len() == 4);
    assert("--show-overlap".spec_bytes().len() == 14);
    assert("--merge".spec_bytes().len() == 7);
    assert("--easy-only".spec_bytes().len() == 11);
    assert("--overlap-only".spec_bytes().len() == 14);
    assert("--show-overlap".spec_bytes()[2] != "--overlap-only".spec_bytes()[2]);
    assert("--ed".spec_bytes()[0] != 109u8);
}

/// The flags with one more option set.
pub open spec fn set_flag(flags: Flags, option: CliOption) -> Flags {
    match option {
        CliOption::ShowAll => Flags { show_all: true, ..flags },
        CliOption::Ed => Flags { ed: true, ..flags },
        CliOption::ShowOverlap => Flags { show_overlap: true, ..flags },
        CliOption::Merge => Flags { merge: true, ..flags },
        CliOption::EasyOnly => Flags { easy_only: true, ..flags },
        CliOption::OverlapOnly => Flags { overlap_only: true, ..flags },
        CliOption::OverlapOnlyBracket => Flags { overlap_only_bracket: true, ..flags },
        CliOption::EdWq => Flags { ed_wq: true, ..flags },
    }
}

/// Why the arguments cannot be used.
#[derive(Clone, Copy, Debug, PartialEq, Eq, Structural)]
pub enum ArgsError {
    /// Fewer than three files were named.
    MissingOperand,
}

/// The flags and files that the arguments give, reading them in order until
/// three files are named; arguments after the third file are not read.
pub open spec fn spec_parse_args(args: Seq<Seq<u8>>, flags: Flags, files: Seq<Seq<u8>>) -> Result<
    (Flags, Seq<Seq<u8>>),
    ArgsError,
>
    decreases args.len(),
{
    if files.len() >= 3 {
        Ok((flags, files))
    } else if args.len() == 0 {
        Err(ArgsError::MissingOperand)
    } else {
        match option_of(args[0]) {
            Some(option) => spec_parse_args(args.drop_first(), set_flag(flags, option), files),
            None => spec_parse_args(args.drop_first(), flags, files.push(args[0])),
        }
    }
}

/// Whether two byte strings are equal.
fn bytes_equal(a: &[u8], b: &[u8]) -> (equal: bool)
    ensures
        equal == (a@ == b@),
{
    if a.len() != b.len() {
        return false;
    }
    let mut i: usize = 0;
    while i < a.len()
        invariant
            a@.len() == b@.len(),
            i <= a@.len(),
            forall|k: int| 0 <= k < i ==> a@[k] == b@[k],
        decreases a@.len() - i,
    {
        if a[i] != b[i] {
            return false;
        }
        i = i + 1;
    }
    assert(a@ =~= b@);
    true
}

/// The option an argument spells, if any.
pub fn parse_option(arg: &[u8]) -> (option: Option<CliOption>)
    ensures
        option == option_of(arg@),
{
    if bytes_equal(arg, "-A".as_bytes()) || bytes_equal(arg, "--show-all".as_bytes()) {
        Some(CliOption::ShowAll)
    } else if bytes_equal(arg, "-e".as_bytes()) || bytes_equal(arg, "--ed".as_bytes()) {
        Some(CliOption::Ed)
    } else if bytes_equal(arg, "-E".as_bytes()) || bytes_equal(arg, "--show-overlap".as_bytes()) {
        Some(CliOption::ShowOverlap)
    } else if bytes_equal(arg, "-m".as_bytes()) || bytes_equal(arg, "--merge".as_bytes()) {
        Some(CliOption::Merge)
    } else if bytes_equal(arg, "-3".as_bytes()) || bytes_equal(arg, "--easy-only".as_bytes()) {
        Some(CliOption::EasyOnly)
    } else if bytes_equal(arg, "-x".as_bytes()) || bytes_equal(arg, "--overlap-only".as_bytes()) {
        Some(CliOption::OverlapOnly)
    } else if bytes_equal(arg, "-X".as_bytes()) {
        Some(CliOption::OverlapOnlyBracket)
    } else if bytes_equal(arg, "-i".as_bytes()) {
        Some(CliOption::EdWq)
    } else {
        None
    }
}

impl Flags {
    /// The flags before any option.
    pub fn new() -> (flags: Flags)
        ensures
            flags == no_flags(),
    {
        Flags {
            show_overlap: false,
            ed: false,
            merge: false,
            show_all: false,
            overlap_only: false,
            overlap_only_bracket: false,
            easy_only: false,
            ed_wq: false,
        }
    }

    /// Sets the flag of an option.
    pub fn set(&mut self, option: CliOption)
        ensures
            *final(self) == set_flag(*old(self), option),
    {
        match option {
            CliOption::ShowAll => self.show_all = true,
            CliOption::Ed => self.ed = true,
            CliOption::ShowOverlap => self.show_overlap = true,
            CliOption::Merge => self.merge = true,
            CliOption::EasyOnly => self.easy_only = true,
            CliOption::OverlapOnly => self.overlap_only = true,
            CliOption::OverlapOnlyBracket => self.overlap_only_bracket = true,
            CliOption::EdWq => self.ed_wq = true,
        }
    }
}

/// The flags and the three files that the arguments (the program's name left
/// out) give; an error when they name fewer than three files.
pub fn parse_args(args: &Vec<Vec<u8>>) -> (parsed: Result<(Flags, Vec<Vec<u8>>), ArgsError>)
    ensures
        match parsed {
            Ok((flags, files)) => spec_parse_args(lines_view(args@), no_flags(), Seq::empty())
                == Ok::<(Flags, Seq<Seq<u8>>), ArgsError>((flags, lines_view(files@))),
            Err(e) => spec_parse_args(lines_view(args@), no_flags(), Seq::empty()) == Err::<
                (Flags, Seq<Seq<u8>>),
                ArgsError,
            >(e),
        },
{
    let ghost all = lines_view(args@);
    let mut flags = Flags::new();
    let mut files: Vec<Vec<u8>> = Vec::new();
    let mut i: usize = 0;
    assert(all.skip(0) =~= all);
    assert(lines_view(files@) =~= Seq::<Seq<u8>>::empty());
    while files.len() < 3
        invariant
            all == lines_view(args@),
            i <= args@.len(),
            files@.len() <= 3,
            spec_parse_args(all.skip(i as int), flags, lines_view(files@)) == spec_parse_args(
                all,
                no_flags(),
                Seq::empty(),
            ),
        decreases args@.len() - i,
    {
        if i >= args.len() {
            assert(all.skip(i as int).len() == 0);
            return Err(ArgsError::MissingOperand);
        }
        let arg = &args[i];
        assert(all.skip(i as int)[0] == arg@);
        assert(all.skip(i as int).drop_first() =~= all.skip(i + 1));
        match parse_option(arg.as_slice()) {
            Some(option) => flags.set(option),
            None => {
                let ghost before = lines_view(files@);
                files.push(crate::lines::copy_line(arg));
                assert(lines_view(files@) =~= before.push(arg@));
            },
        }
        i = i + 1;
    }
    Ok((flags, files))
}

/// The operation that the flags select: the normal format when none is set,
/// a merge bracketing all conflicts for `-m` alone, and otherwise the
/// resolution of the one output option given; `None` when several are given.
pub open spec fn spec_select_operation(flags: Flags) -> Option<Operation> {
    let chosen = (if flags.ed { 1int } else { 0int }) + (if flags.show_all { 1int } else { 0int })
        + (if flags.show_overlap { 1int } else { 0int }) + (if flags.overlap_only {
        1int
    } else {
        0int
    }) + (if flags.overlap_only_bracket { 1int } else { 0int }) + (if flags.easy_only {
        1int
    } else {
        0int
    });
    if chosen == 0 {
        if flags.merge {
            Some(Operation::Merge(Resolution::BracketAll))
        } else {
            Some(Operation::Normal)
        }
    } else if chosen > 1 {
        None
    } else {
        let resolution = if flags.ed {
            Resolution::PickYour
        } else if flags.show_all {
            Resolution::BracketAll
        } else if flags.show_overlap {
            Resolution::BracketOverlap
        } else if flags.overlap_only {
            Resolution::PickOverlap
        } else if flags.overlap_only_bracket {
            Resolution::PickOverlapBracketConflicts
        } else {
            Resolution::PickNonOverlap
        };
        Some(spec_operation(resolution, flags.merge, flags.ed_wq))
    }
}

/// The operation that the flags select, if they are compatible.
pub fn select_operation(flags: &Flags) -> (op: Option<Operation>)
    ensures
        op == spec_select_operation(*flags),
{
    match (
        flags.ed,
        flags.show_all,
        flags.show_overlap,
        flags.overlap_only,
        flags.overlap_only_bracket,
        flags.easy_only,
        flags.merge,
    ) {
        (false, false, false, false, false, false, false) => Some(Operation::Normal),
        (false, false, false, false, false, false, true) => Some(
            Operation::Merge(Resolution::BracketAll),
        ),
        (true, false, false, false, false, false, merge) => Some(
            operation(Resolution::PickYour, merge, flags.ed_wq),
        ),
        (false, true, false, false, false, false, merge) => Some(
            operation(Resolution::BracketAll, merge, flags.ed_wq),
        ),
        (false, false, true, false, false, false, merge) => Some(
            operation(Resolution::BracketOverlap, merge, flags.ed_wq),
        ),
        (false, false, false, true, false, false, merge) => Some(
            operation(Resolution::PickOverlap, merge, flags.ed_wq),
        ),
        (false, false, false, false, true, false, merge) => Some(
            operation(Resolution::PickOverlapBracketConflicts, merge, flags.ed_wq),
        ),
        (false, false, false, false, false, true, merge) => Some(
            operation(Resolution::PickNonOverlap, merge, flags.ed_wq),
        ),
        _ => None,
    }
}

} // verus!
