use vstd::prelude::*;

use crate::flags::Flags;

verus! {

/// Bytes the pattern language treats as metacharacters; escaping is exactly
/// a backslash before each of them.
pub open spec fn is_meta(b: u8) -> bool {
    ||| b == 92  // backslash
    ||| b == 46  // .
    ||| b == 43  // +
    ||| b == 42  // *
    ||| b == 63  // ?
    ||| b == 40  // (
    ||| b == 41  // )
    ||| b == 124  // |
    ||| b == 91  // [
    ||| b == 93  // ]
    ||| b == 123  // {
    ||| b == 125  // }
    ||| b == 94  // ^
    ||| b == 36  // $
    ||| b == 35  // #
    ||| b == 38  // &
    ||| b == 45  // -
    ||| b == 126  // ~
}

/// The find text with every metacharacter escaped, so that it matches itself
/// as raw bytes.
pub open spec fn escaped(s: Seq<u8>) -> Seq<u8>
    decreases s.len(),
{
    if s.len() == 0 {
        Seq::empty()
    } else {
        escaped(s.drop_last()) + (if is_meta(s.last()) {
            seq![92u8, s.last()]
        } else {
            seq![s.last()]
        })
    }
}

/// The find text as it reaches the compiler: escaped in literal mode, raw
/// otherwise.
pub open spec fn core_source(find: Seq<u8>, literal: bool) -> Seq<u8> {
    if literal {
        escaped(find)
    } else {
        find
    }
}

/// The inline-option prefix naming case-insensitivity `(?i)`, multi-line
/// anchors `(?m)`, and the any-character class matching line terminators
/// `(?s)`.
pub open spec fn option_prefix(f: Flags) -> Seq<u8> {
    (if f.case_insensitive {
        seq![40u8, 63u8, 105u8, 41u8]
    } else {
        Seq::<u8>::empty()
    }) + (if f.multi_line {
        seq![40u8, 63u8, 109u8, 41u8]
    } else {
        Seq::<u8>::empty()
    }) + (if f.dot_matches_newline {
        seq![40u8, 63u8, 115u8, 41u8]
    } else {
        Seq::<u8>::empty()
    })
}

/// Under the whole-word flag the core is wrapped as `\b(?:core)\b`, so every
/// match must be bounded by non-word characters or buffer edges.
pub open spec fn word_wrapped(core: Seq<u8>, whole_word: bool) -> Seq<u8> {
    if whole_word {
        seq![92u8, 98u8, 40u8, 63u8, 58u8] + core + seq![41u8, 92u8, 98u8]
    } else {
        core
    }
}

/// The full pattern text handed to the compiler.
pub open spec fn compiled_source(find: Seq<u8>, literal: bool, f: Flags) -> Seq<u8> {
    option_prefix(f) + word_wrapped(core_source(find, literal), f.whole_word)
}

fn is_meta_byte(b: u8) -> (r: bool)
    ensures
        r == is_meta(b),
{
    b == 92 || b == 46 || b == 43 || b == 42 || b == 63 || b == 40 || b == 41 || b == 124 || b == 91
        || b == 93 || b == 123 || b == 125 || b == 94 || b == 36 || b == 35 || b == 38 || b == 45
        || b == 126
}

/// Assemble the pattern text for the given find bytes, mode and flags.
#[verifier::rlimit(50)]
pub fn build_source(find: &Vec<u8>, literal: bool, f: &Flags) -> (r: Vec<u8>)
    ensures
        r@ == compiled_source(find@, literal, *f),
{
    let mut out: Vec<u8> = Vec::new();
    if f.case_insensitive {
        out.push(40);
        out.push(63);
        out.push(105);
        out.push(41);
    }
    if f.multi_line {
        out.push(40);
        out.push(63);
        out.push(109);
        out.push(41);
    }
    if f.dot_matches_newline {
        out.push(40);
        out.push(63);
        out.push(115);
        out.push(41);
    }
    proof {
        assert(out@ =~= option_prefix(*f));
    }
    if f.whole_word {
        out.push(92);
        out.push(98);
        out.push(40);
        out.push(63);
        out.push(58);
    }
    let ghost mid = out@;
    let n = find.len();
    let mut i: usize = 0;
    while i < n
        invariant
            i <= n,
            n == find@.len(),
            out@ == mid + core_source(find@.subrange(0, i as int), literal),
        decreases n - i,
    {
        let b = find[i];
        if literal && is_meta_byte(b) {
            out.push(92);
        }
        out.push(b);
        proof {
            let pre = find@.subrange(0, i as int);
            let ext = find@.subrange(0, i + 1);
            assert(ext.drop_last() =~= pre);
            assert(ext.last() == find@[i as int]);
            if literal {
                assert(out@ =~= mid + core_source(ext, literal));
            } else {
                assert(out@ =~= mid + core_source(ext, literal));
            }
        }
        i += 1;
    }
    proof {
        assert(find@.subrange(0, n as int) =~= find@);
    }
    if f.whole_word {
        out.push(41);
        out.push(92);
        out.push(98);
    }
    proof {
        assert(out@ =~= compiled_source(find@, literal, *f));
    }
    out
}

} // verus!
