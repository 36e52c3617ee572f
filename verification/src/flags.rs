use vstd::prelude::*;
use vstd::utf8::encode_utf8;

verus! {

/// Matching options gathered from a flag string.
///
/// Defaults (no flags): case-sensitive, multi-line anchors off, the
/// any-character class does not match line terminators, no whole-word bound.
#[derive(Clone, Copy, Debug, PartialEq, Eq, Structural)]
pub struct Flags {
    pub case_insensitive: bool,
    pub multi_line: bool,
    pub dot_matches_newline: bool,
    pub whole_word: bool,
}

pub open spec fn default_flags() -> Flags {
    Flags {
        case_insensitive: false,
        multi_line: false,
        dot_matches_newline: false,
        whole_word: false,
    }
}

/// One flag letter applied to the option it controls; any other byte changes
/// nothing. Later letters override earlier ones, so of the mutually exclusive
/// case flags `c` and `i` the last one specified wins.
pub open spec fn apply_flag(f: Flags, b: u8) -> Flags {
    if b == 99 {  // 'c'
        Flags { case_insensitive: false, ..f }
    } else if b == 105 {  // 'i'
        Flags { case_insensitive: true, ..f }
    } else if b == 109 {  // 'm'
        Flags { multi_line: true, ..f }
    } else if b == 101 {  // 'e'
        Flags { multi_line: false, ..f }
    } else if b == 115 {  // 's'
        Flags { dot_matches_newline: true, ..f }
    } else if b == 119 {  // 'w'
        Flags { whole_word: true, ..f }
    } else {
        f
    }
}

/// The options named by a flag string, folded left to right from the
/// defaults.
pub open spec fn flags_of(s: Seq<u8>) -> Flags
    decreases s.len(),
{
    if s.len() == 0 {
        default_flags()
    } else {
        apply_flag(flags_of(s.drop_last()), s.last())
    }
}

/// The options named by an optional flag string.
pub open spec fn flags_of_opt(s: Option<Seq<u8>>) -> Flags {
    match s {
        None => default_flags(),
        Some(b) => flags_of(b),
    }
}

fn apply_flag_byte(f: Flags, b: u8) -> (r: Flags)
    ensures
        r == apply_flag(f, b),
{
    if b == 99 {
        Flags { case_insensitive: false, ..f }
    } else if b == 105 {
        Flags { case_insensitive: true, ..f }
    } else if b == 109 {
        Flags { multi_line: true, ..f }
    } else if b == 101 {
        Flags { multi_line: false, ..f }
    } else if b == 115 {
        Flags { dot_matches_newline: true, ..f }
    } else if b == 119 {
        Flags { whole_word: true, ..f }
    } else {
        f
    }
}

/// Fold an optional flag string into the options it names.
pub fn parse_flags(flags: &Option<String>) -> (r: Flags)
    ensures
        flags matches Some(s) ==> r == flags_of(encode_utf8(s@)),
        flags is None ==> r == default_flags(),
{
    match flags {
        None => Flags {
            case_insensitive: false,
            multi_line: false,
            dot_matches_newline: false,
            whole_word: false,
        },
        Some(s) => {
            let bytes: &[u8] = s.as_str().as_bytes();
            let ghost bs = encode_utf8(s@);
            let n = bytes.len();
            let mut f = Flags {
                case_insensitive: false,
                multi_line: false,
                dot_matches_newline: false,
                whole_word: false,
            };
            let mut i: usize = 0;
            while i < n
                invariant
                    i <= n,
                    n == bs.len(),
                    bytes@ == bs,
                    f == flags_of(bs.subrange(0, i as int)),
                decreases n - i,
            {
                f = apply_flag_byte(f, bytes[i]);
                proof {
                    assert(bs.subrange(0, i + 1).drop_last() =~= bs.subrange(0, i as int));
                    assert(bs.subrange(0, i + 1).last() == bs[i as int]);
                }
                i += 1;
            }
            proof {
                assert(bs.subrange(0, n as int) =~= bs);
            }
            f
        },
    }
}

} // verus!
