//! Command-line argument parsing: a single pass over the argument vector,
//! recognizing the watch directory, the pattern flags, the verbosity flag,
//! the four command templates, and the debounce window.

use vstd::prelude::*;

use crate::text::str_eq;

verus! {

/// The parsed command line.
#[derive(Debug)]
pub struct Args {
    pub directory: String,
    pub exclude_patterns: Vec<String>,
    pub include_patterns: Vec<String>,
    pub verbose: bool,
    pub on_create: Option<String>,
    pub on_modify: Option<String>,
    pub on_delete: Option<String>,
    pub on_change: Option<String>,
    pub debounce: u64,
}

/// Why the command line was rejected.
#[derive(Debug)]
pub enum ArgError {
    MissingValue { flag: String },
    UnknownFlag { flag: String },
    UnexpectedArgument { value: String },
    MissingDirectory,
    InvalidDebounce { value: String },
}

/// The mathematical content of a rejection.
pub enum ArgErrorView {
    MissingValue { flag: Seq<char> },
    UnknownFlag { flag: Seq<char> },
    UnexpectedArgument { value: Seq<char> },
    MissingDirectory,
    InvalidDebounce { value: Seq<char> },
}

impl View for ArgError {
    type V = ArgErrorView;

    open spec fn view(&self) -> ArgErrorView {
        match self {
            ArgError::MissingValue { flag } => ArgErrorView::MissingValue { flag: flag@ },
            ArgError::UnknownFlag { flag } => ArgErrorView::UnknownFlag { flag: flag@ },
            ArgError::UnexpectedArgument { value } => ArgErrorView::UnexpectedArgument {
                value: value@,
            },
            ArgError::MissingDirectory => ArgErrorView::MissingDirectory,
            ArgError::InvalidDebounce { value } => ArgErrorView::InvalidDebounce { value: value@ },
        }
    }
}

/// The state the parse accumulates, over plain values.
pub struct ArgState {
    pub directory: Option<Seq<char>>,
    pub exclude_patterns: Seq<Seq<char>>,
    pub include_patterns: Seq<Seq<char>>,
    pub verbose: bool,
    pub on_create: Option<Seq<char>>,
    pub on_modify: Option<Seq<char>>,
    pub on_delete: Option<Seq<char>>,
    pub on_change: Option<Seq<char>>,
    pub debounce: int,
}

/// The state before any argument is read.
pub open spec fn init_state() -> ArgState {
    ArgState {
        directory: None,
        exclude_patterns: Seq::empty(),
        include_patterns: Seq::empty(),
        verbose: false,
        on_create: None,
        on_modify: None,
        on_delete: None,
        on_change: None,
        debounce: 0,
    }
}

impl Args {
    /// The parsed command line as an accumulated state.
    pub open spec fn as_state(self) -> ArgState {
        ArgState {
            directory: Some(self.directory@),
            exclude_patterns: self.exclude_patterns@.map_values(|s: String| s@),
            include_patterns: self.include_patterns@.map_values(|s: String| s@),
            verbose: self.verbose,
            on_create: opt_view(self.on_create),
            on_modify: opt_view(self.on_modify),
            on_delete: opt_view(self.on_delete),
            on_change: opt_view(self.on_change),
            debounce: self.debounce as int,
        }
    }
}

/// The text of an optional string.
pub open spec fn opt_view(o: Option<String>) -> Option<Seq<char>> {
    match o {
        Some(s) => Some(s@),
        None => None,
    }
}

/// The numeric value of a decimal digit, if the character is one.
pub open spec fn spec_digit(c: char) -> Option<int> {
    match c {
        '0' => Some(0),
        '1' => Some(1),
        '2' => Some(2),
        '3' => Some(3),
        '4' => Some(4),
        '5' => Some(5),
        '6' => Some(6),
        '7' => Some(7),
        '8' => Some(8),
        '9' => Some(9),
        _ => None,
    }
}

/// The value of the decimal digits of `s` from position `i` on, on top of
/// `acc`; none on a non-digit or when the value leaves the 64-bit range.
pub open spec fn spec_parse_u64_from(s: Seq<char>, i: int, acc: int) -> Option<int>
    decreases s.len() - i,
{
    if i < 0 || i >= s.len() {
        Some(acc)
    } else {
        match spec_digit(s[i]) {
            None => None,
            Some(d) => if acc * 10 + d > u64::MAX {
                None
            } else {
                spec_parse_u64_from(s, i + 1, acc * 10 + d)
            },
        }
    }
}

/// The value of `s` read as a decimal 64-bit number, if it is one.
pub open spec fn spec_parse_u64(s: Seq<char>) -> Option<int> {
    if s.len() == 0 {
        None
    } else {
        spec_parse_u64_from(s, 0, 0)
    }
}

/// The numeric value of a decimal digit, if the character is one.
fn digit(c: char) -> (r: Option<u64>)
    ensures
        r matches Some(d) ==> spec_digit(c) == Some(d as int),
        r is None ==> spec_digit(c) is None,
{
    match c {
        '0' => Some(0),
        '1' => Some(1),
        '2' => Some(2),
        '3' => Some(3),
        '4' => Some(4),
        '5' => Some(5),
        '6' => Some(6),
        '7' => Some(7),
        '8' => Some(8),
        '9' => Some(9),
        _ => None,
    }
}

/// Read `s` as a decimal 64-bit number.
fn parse_u64(s: &str) -> (r: Option<u64>)
    ensures
        r matches Some(v) ==> spec_parse_u64(s@) == Some(v as int),
        r is None ==> spec_parse_u64(s@) is None,
{
    let n = s.unicode_len();
    if n == 0 {
        return None;
    }
    let mut acc: u64 = 0;
    let mut i: usize = 0;
    while i < n
        invariant
            i <= n,
            n == s@.len(),
            spec_parse_u64_from(s@, 0, 0) == spec_parse_u64_from(s@, i as int, acc as int),
        decreases n - i,
    {
        let d = match digit(s.get_char(i)) {
            Some(d) => d,
            None => {
                return None;
            },
        };
        let m = match acc.checked_mul(10) {
            Some(m) => m,
            None => {
                return None;
            },
        };
        acc = match m.checked_add(d) {
            Some(v) => v,
            None => {
                return None;
            },
        };
        i = i + 1;
    }
    Some(acc)
}

/// One parse step: how the state changes on the token at the head of
/// `toks`, and what the rest of the parse makes of it.
pub open spec fn spec_parse_from(st: ArgState, toks: Seq<Seq<char>>) -> Result<
    ArgState,
    ArgErrorView,
>
    decreases toks.len(),
{
    if toks.len() == 0 {
        Ok(st)
    } else {
        let t = toks[0];
        if t == "--include"@ || t == "-i"@ {
            if toks.len() < 2 {
                Err(ArgErrorView::MissingValue { flag: t })
            } else {
                spec_parse_from(
                    ArgState { include_patterns: st.include_patterns.push(toks[1]), ..st },
                    toks.skip(2),
                )
            }
        } else if t == "--exclude"@ || t == "-e"@ {
            if toks.len() < 2 {
                Err(ArgErrorView::MissingValue { flag: t })
            } else {
                spec_parse_from(
                    ArgState { exclude_patterns: st.exclude_patterns.push(toks[1]), ..st },
                    toks.skip(2),
                )
            }
        } else if t == "--verbose"@ || t == "-v"@ {
            spec_parse_from(ArgState { verbose: true, ..st }, toks.skip(1))
        } else if t == "--on-create"@ {
            if toks.len() < 2 {
                Err(ArgErrorView::MissingValue { flag: t })
            } else {
                spec_parse_from(ArgState { on_create: Some(toks[1]), ..st }, toks.skip(2))
            }
        } else if t == "--on-modify"@ {
            if toks.len() < 2 {
                Err(ArgErrorView::MissingValue { flag: t })
            } else {
                spec_parse_from(ArgState { on_modify: Some(toks[1]), ..st }, toks.skip(2))
            }
        } else if t == "--on-delete"@ {
            if toks.len() < 2 {
                Err(ArgErrorView::MissingValue { flag: t })
            } else {
                spec_parse_from(ArgState { on_delete: Some(toks[1]), ..st }, toks.skip(2))
            }
        } else if t == "--on-change"@ {
            if toks.len() < 2 {
                Err(ArgErrorView::MissingValue { flag: t })
            } else {
                spec_parse_from(ArgState { on_change: Some(toks[1]), ..st }, toks.skip(2))
            }
        } else if t == "--debounce"@ {
            if toks.len() < 2 {
                Err(ArgErrorView::MissingValue { flag: t })
            } else {
                match spec_parse_u64(toks[1]) {
                    Some(v) => spec_parse_from(ArgState { debounce: v, ..st }, toks.skip(2)),
                    None => Err(ArgErrorView::InvalidDebounce { value: toks[1] }),
                }
            }
        } else if t.len() > 0 && t[0] == '-' && t != "-"@ {
            Err(ArgErrorView::UnknownFlag { flag: t })
        } else if st.directory is None {
            spec_parse_from(ArgState { directory: Some(t), ..st }, toks.skip(1))
        } else {
            Err(ArgErrorView::UnexpectedArgument { value: t })
        }
    }
}

/// What the whole argument vector parses to: the first element names the
/// program and is skipped; a directory must have been given.
pub open spec fn spec_parse(argv: Seq<Seq<char>>) -> Result<ArgState, ArgErrorView> {
    if argv.len() == 0 {
        Err(ArgErrorView::MissingDirectory)
    } else {
        match spec_parse_from(init_state(), argv.skip(1)) {
            Err(e) => Err(e),
            Ok(st) => if st.directory is None {
                Err(ArgErrorView::MissingDirectory)
            } else {
                Ok(st)
            },
        }
    }
}

/// Parse an argument vector, program name first.
pub fn parse_args(argv: Vec<String>) -> (r: Result<Args, ArgError>)
    ensures
        ({
            let parsed = spec_parse(argv@.map_values(|s: String| s@));
            &&& r is Ok <==> parsed is Ok
            &&& r matches Ok(a) ==> parsed == Ok::<ArgState, ArgErrorView>(a.as_state())
            &&& r matches Err(e) ==> parsed == Err::<ArgState, ArgErrorView>(e@)
        }),
{
    let ghost all = argv@.map_values(|s: String| s@);
    let ghost toks = all.skip(1);
    if argv.len() == 0 {
        return Err(ArgError::MissingDirectory);
    }
    let mut directory: Option<String> = None;
    let mut exclude_patterns: Vec<String> = Vec::new();
    let mut include_patterns: Vec<String> = Vec::new();
    let mut verbose: bool = false;
    let mut on_create: Option<String> = None;
    let mut on_modify: Option<String> = None;
    let mut on_delete: Option<String> = None;
    let mut on_change: Option<String> = None;
    let mut debounce: u64 = 0;
    let mut i: usize = 1;
    proof {
        assert(exclude_patterns@.map_values(|s: String| s@) =~= Seq::<Seq<char>>::empty());
        assert(include_patterns@.map_values(|s: String| s@) =~= Seq::<Seq<char>>::empty());
        assert(toks.skip(0) =~= toks);
    }
    while i < argv.len()
        invariant
            1 <= i <= argv.len(),
            all == argv@.map_values(|s: String| s@),
            toks == all.skip(1),
            spec_parse_from(init_state(), toks) == spec_parse_from(
                ArgState {
                    directory: opt_view(directory),
                    exclude_patterns: exclude_patterns@.map_values(|s: String| s@),
                    include_patterns: include_patterns@.map_values(|s: String| s@),
                    verbose: verbose,
                    on_create: opt_view(on_create),
                    on_modify: opt_view(on_modify),
                    on_delete: opt_view(on_delete),
                    on_change: opt_view(on_change),
                    debounce: debounce as int,
                },
                toks.skip(i - 1),
            ),
        decreases argv.len() - i,
    {
        let ghost st = ArgState {
            directory: opt_view(directory),
            exclude_patterns: exclude_patterns@.map_values(|s: String| s@),
            include_patterns: include_patterns@.map_values(|s: String| s@),
            verbose: verbose,
            on_create: opt_view(on_create),
            on_modify: opt_view(on_modify),
            on_delete: opt_view(on_delete),
            on_change: opt_view(on_change),
            debounce: debounce as int,
        };
        let ghost rest = toks.skip(i - 1);
        proof {
            assert(rest.len() == argv@.len() - i);
            assert(rest[0] == all[i as int]);
            assert(all[i as int] == argv@[i as int]@);
            if i + 1 < argv.len() {
                assert(rest[1] == all[i + 1]);
                assert(all[i + 1] == argv@[i + 1]@);
            }
            assert(rest.skip(1) =~= toks.skip(i as int));
            if i + 1 < argv.len() {
                assert(rest.skip(2) =~= toks.skip(i + 1));
            }
        }
        let tok = &argv[i];
        let has_value = i + 1 < argv.len();
        if str_eq(tok.as_str(), "--include") || str_eq(tok.as_str(), "-i") {
            if !has_value {
                return Err(ArgError::MissingValue { flag: tok.clone() });
            }
            let v = argv[i + 1].clone();
            let ghost prev = include_patterns@;
            include_patterns.push(v);
            proof {
                prev.lemma_push_map_commute(|s: String| s@, v);
                assert(include_patterns@.map_values(|s: String| s@) =~= st.include_patterns.push(rest[1]));
            }
            i = i + 2;
        } else if str_eq(tok.as_str(), "--exclude") || str_eq(tok.as_str(), "-e") {
            if !has_value {
                return Err(ArgError::MissingValue { flag: tok.clone() });
            }
            let v = argv[i + 1].clone();
            let ghost prev = exclude_patterns@;
            exclude_patterns.push(v);
            proof {
                prev.lemma_push_map_commute(|s: String| s@, v);
                assert(exclude_patterns@.map_values(|s: String| s@) =~= st.exclude_patterns.push(rest[1]));
            }
            i = i + 2;
        } else if str_eq(tok.as_str(), "--verbose") || str_eq(tok.as_str(), "-v") {
            verbose = true;
            i = i + 1;
        } else if str_eq(tok.as_str(), "--on-create") {
            if !has_value {
                return Err(ArgError::MissingValue { flag: tok.clone() });
            }
            on_create = Some(argv[i + 1].clone());
            i = i + 2;
        } else if str_eq(tok.as_str(), "--on-modify") {
            if !has_value {
                return Err(ArgError::MissingValue { flag: tok.clone() });
            }
            on_modify = Some(argv[i + 1].clone());
            i = i + 2;
        } else if str_eq(tok.as_str(), "--on-delete") {
            if !has_value {
                return Err(ArgError::MissingValue { flag: tok.clone() });
            }
            on_delete = Some(argv[i + 1].clone());
            i = i + 2;
        } else if str_eq(tok.as_str(), "--on-change") {
            if !has_value {
                return Err(ArgError::MissingValue { flag: tok.clone() });
            }
            on_change = Some(argv[i + 1].clone());
            i = i + 2;
        } else if str_eq(tok.as_str(), "--debounce") {
            if !has_value {
                return Err(ArgError::MissingValue { flag: tok.clone() });
            }
            let value = &argv[i + 1];
            debounce = match parse_u64(value.as_str()) {
                Some(v) => v,
                None => {
                    return Err(ArgError::InvalidDebounce { value: value.clone() });
                },
            };
            i = i + 2;
        } else if tok.unicode_len() > 0 && tok.as_str().get_char(0) == '-' && !str_eq(
            tok.as_str(),
            "-",
        ) {
            return Err(ArgError::UnknownFlag { flag: tok.clone() });
        } else if directory.is_none() {
            directory = Some(tok.clone());
            i = i + 1;
        } else {
            return Err(ArgError::UnexpectedArgument { value: tok.clone() });
        }
    }
    proof {
        assert(toks.skip(i - 1) =~= Seq::<Seq<char>>::empty());
    }
    let dir = match directory {
        Some(d) => d,
        None => {
            return Err(ArgError::MissingDirectory);
        },
    };
    let args = Args {
        directory: dir,
        exclude_patterns,
        include_patterns,
        verbose,
        on_create,
        on_modify,
        on_delete,
        on_change,
        debounce,
    };
    Ok(args)
}

} // verus!
