use vstd::prelude::*;

use crate::engine::{expanded_at, found_at};

verus! {

/// Highlight-begin marker: the terminal escape sequence that turns the
/// foreground green.
pub open spec fn mark_on() -> Seq<u8> {
    seq![27u8, 91u8, 51u8, 50u8, 109u8]
}

/// Highlight-end marker: the terminal escape sequence that resets the
/// foreground.
pub open spec fn mark_off() -> Seq<u8> {
    seq![27u8, 91u8, 48u8, 109u8]
}

/// One substitution step of a scan: the unchanged bytes before the match, the
/// rendered replacement, and the single byte carried over unchanged when the
/// match was empty (so the scan always advances).
pub struct Segment {
    pub gap: Seq<u8>,
    pub rendered: Seq<u8>,
    pub carried: Seq<u8>,
}

/// The bytes a segment contributes to the committed output.
pub open spec fn plain_of(seg: Segment) -> Seq<u8> {
    seg.gap + seg.rendered + seg.carried
}

/// The bytes a segment contributes to the preview: the rendered replacement
/// wrapped in the highlight markers.
pub open spec fn marked_of(seg: Segment) -> Seq<u8> {
    seg.gap + mark_on() + seg.rendered + mark_off() + seg.carried
}

pub open spec fn flatten_plain(segs: Seq<Segment>, tail: Seq<u8>) -> Seq<u8>
    decreases segs.len(),
{
    if segs.len() == 0 {
        tail
    } else {
        plain_of(segs[0]) + flatten_plain(segs.drop_first(), tail)
    }
}

pub open spec fn flatten_marked(segs: Seq<Segment>, tail: Seq<u8>) -> Seq<u8>
    decreases segs.len(),
{
    if segs.len() == 0 {
        tail
    } else {
        marked_of(segs[0]) + flatten_marked(segs.drop_first(), tail)
    }
}

/// True when no replacements are left under the budget (`None` = unlimited).
pub open spec fn exhausted(budget: Option<nat>) -> bool {
    budget matches Some(n) && n == 0
}

/// The budget after one replacement.
pub open spec fn spend(budget: Option<nat>) -> Option<nat> {
    match budget {
        None => None,
        Some(n) => Some((n - 1) as nat),
    }
}

/// The rendered replacement for the match found at or after `pos`: the
/// expanded template in pattern mode, the template verbatim in literal mode.
pub open spec fn rendered_at(
    pat: Seq<u8>,
    expand: bool,
    tmpl: Seq<u8>,
    buf: Seq<u8>,
    pos: int,
) -> Seq<u8> {
    if expand {
        expanded_at(pat, buf, pos, tmpl)
    } else {
        tmpl
    }
}

/// How one scan over `buf` starting at byte `pos` decomposes into
/// substitution segments and a final unchanged tail, with `budget`
/// replacements left. Matches are taken leftmost first, never overlap, and an
/// empty match either carries one byte forward or, at the buffer's end, ends
/// the scan.
#[verifier::opaque]
pub open spec fn segments_from(
    pat: Seq<u8>,
    expand: bool,
    tmpl: Seq<u8>,
    buf: Seq<u8>,
    pos: int,
    budget: Option<nat>,
) -> (Seq<Segment>, Seq<u8>)
    decreases buf.len() + 1 - pos,
{
    if !(0 <= pos <= buf.len()) {
        (Seq::empty(), Seq::empty())
    } else if exhausted(budget) {
        (Seq::empty(), buf.subrange(pos, buf.len() as int))
    } else {
        match found_at(pat, buf, pos) {
            None => (Seq::empty(), buf.subrange(pos, buf.len() as int)),
            Some(span) => {
                if pos <= span.0 && span.0 <= span.1 && span.1 <= buf.len() {
                    let gap = buf.subrange(pos, span.0);
                    let rendered = rendered_at(pat, expand, tmpl, buf, pos);
                    if span.0 < span.1 {
                        let rest = segments_from(pat, expand, tmpl, buf, span.1, spend(budget));
                        (
                            seq![Segment { gap, rendered, carried: Seq::empty() }] + rest.0,
                            rest.1,
                        )
                    } else if span.0 < buf.len() {
                        let rest = segments_from(pat, expand, tmpl, buf, span.0 + 1, spend(budget));
                        (
                            seq![Segment { gap, rendered, carried: seq![buf[span.0]] }] + rest.0,
                            rest.1,
                        )
                    } else {
                        (seq![Segment { gap, rendered, carried: Seq::empty() }], Seq::empty())
                    }
                } else {
                    (Seq::empty(), buf.subrange(pos, buf.len() as int))
                }
            },
        }
    }
}

/// The budget still open after `used` replacements have been applied.
pub open spec fn remaining(budget: Option<nat>, used: nat) -> Option<nat> {
    match budget {
        None => None,
        Some(c) => if used <= c {
            Some((c - used) as nat)
        } else {
            Some(0nat)
        },
    }
}

pub proof fn lemma_flatten_plain_cons(x: Segment, rest: Seq<Segment>, tail: Seq<u8>)
    ensures
        flatten_plain(seq![x] + rest, tail) == plain_of(x) + flatten_plain(rest, tail),
{
    assert((seq![x] + rest).drop_first() =~= rest);
    assert((seq![x] + rest)[0] == x);
}

pub proof fn lemma_flatten_marked_cons(x: Segment, rest: Seq<Segment>, tail: Seq<u8>)
    ensures
        flatten_marked(seq![x] + rest, tail) == marked_of(x) + flatten_marked(rest, tail),
{
    assert((seq![x] + rest).drop_first() =~= rest);
    assert((seq![x] + rest)[0] == x);
}

/// The committed replacement of `buf`.
pub open spec fn replaced(
    pat: Seq<u8>,
    expand: bool,
    tmpl: Seq<u8>,
    buf: Seq<u8>,
    budget: Option<nat>,
) -> Seq<u8> {
    let sm = segments_from(pat, expand, tmpl, buf, 0, budget);
    flatten_plain(sm.0, sm.1)
}

/// The highlighted preview of `buf`.
pub open spec fn previewed(
    pat: Seq<u8>,
    expand: bool,
    tmpl: Seq<u8>,
    buf: Seq<u8>,
    budget: Option<nat>,
) -> Seq<u8> {
    let sm = segments_from(pat, expand, tmpl, buf, 0, budget);
    flatten_marked(sm.0, sm.1)
}

/// The number of matches an uncapped scan from `pos` substitutes.
pub open spec fn match_count(pat: Seq<u8>, expand: bool, tmpl: Seq<u8>, buf: Seq<u8>, pos: int) -> nat {
    segments_from(pat, expand, tmpl, buf, pos, None).0.len()
}

/// Where the budget is spent or no further match exists, the scan yields the
/// unchanged rest of the buffer.
pub proof fn lemma_scan_stop(
    pat: Seq<u8>,
    expand: bool,
    tmpl: Seq<u8>,
    buf: Seq<u8>,
    pos: int,
    budget: Option<nat>,
)
    requires
        0 <= pos <= buf.len(),
        exhausted(budget) || found_at(pat, buf, pos) is None,
    ensures
        ({
            let sm = segments_from(pat, expand, tmpl, buf, pos, budget);
            flatten_plain(sm.0, sm.1) == buf.subrange(pos, buf.len() as int) && flatten_marked(
                sm.0,
                sm.1,
            ) == buf.subrange(pos, buf.len() as int)
        }),
{
    reveal(segments_from);
}

/// One substitution step of the scan: the head segment's bytes followed by
/// the rest of the scan, for the plain and the marked flattening alike.
pub proof fn lemma_scan_step(
    pat: Seq<u8>,
    expand: bool,
    tmpl: Seq<u8>,
    buf: Seq<u8>,
    pos: int,
    budget: Option<nat>,
    s: int,
    e: int,
)
    requires
        0 <= pos <= buf.len(),
        !exhausted(budget),
        found_at(pat, buf, pos) == Some((s, e)),
        pos <= s <= e <= buf.len(),
    ensures
        ({
            let sm = segments_from(pat, expand, tmpl, buf, pos, budget);
            let head = Segment {
                gap: buf.subrange(pos, s),
                rendered: rendered_at(pat, expand, tmpl, buf, pos),
                carried: if s == e && s < buf.len() {
                    seq![buf[s]]
                } else {
                    Seq::<u8>::empty()
                },
            };
            if s < e {
                let rest = segments_from(pat, expand, tmpl, buf, e, spend(budget));
                flatten_plain(sm.0, sm.1) == plain_of(head) + flatten_plain(rest.0, rest.1)
                    && flatten_marked(sm.0, sm.1) == marked_of(head) + flatten_marked(
                    rest.0,
                    rest.1,
                )
            } else if s < buf.len() {
                let rest = segments_from(pat, expand, tmpl, buf, s + 1, spend(budget));
                flatten_plain(sm.0, sm.1) == plain_of(head) + flatten_plain(rest.0, rest.1)
                    && flatten_marked(sm.0, sm.1) == marked_of(head) + flatten_marked(
                    rest.0,
                    rest.1,
                )
            } else {
                flatten_plain(sm.0, sm.1) == plain_of(head) && flatten_marked(sm.0, sm.1)
                    == marked_of(head)
            }
        }),
{
    reveal(segments_from);
    let sm = segments_from(pat, expand, tmpl, buf, pos, budget);
    let head = Segment {
        gap: buf.subrange(pos, s),
        rendered: rendered_at(pat, expand, tmpl, buf, pos),
        carried: if s == e && s < buf.len() {
            seq![buf[s]]
        } else {
            Seq::<u8>::empty()
        },
    };
    if s < e {
        let rest = segments_from(pat, expand, tmpl, buf, e, spend(budget));
        assert(sm.0 == seq![head] + rest.0 && sm.1 == rest.1);
        lemma_flatten_plain_cons(head, rest.0, rest.1);
        lemma_flatten_marked_cons(head, rest.0, rest.1);
    } else if s < buf.len() {
        let rest = segments_from(pat, expand, tmpl, buf, s + 1, spend(budget));
        assert(sm.0 == seq![head] + rest.0 && sm.1 == rest.1);
        lemma_flatten_plain_cons(head, rest.0, rest.1);
        lemma_flatten_marked_cons(head, rest.0, rest.1);
    } else {
        assert(sm.0 == seq![head] && sm.1 =~= Seq::<u8>::empty());
        lemma_flatten_plain_cons(head, Seq::empty(), Seq::empty());
        lemma_flatten_marked_cons(head, Seq::empty(), Seq::empty());
        assert(seq![head] + Seq::<Segment>::empty() =~= seq![head]);
        assert(plain_of(head) + Seq::<u8>::empty() =~= plain_of(head));
        assert(marked_of(head) + Seq::<u8>::empty() =~= marked_of(head));
    }
}

/// A buffer without a match is left exactly as it was, by replace and by
/// preview alike, whatever the budget.
pub proof fn lemma_no_match_identity(
    pat: Seq<u8>,
    expand: bool,
    tmpl: Seq<u8>,
    buf: Seq<u8>,
    budget: Option<nat>,
)
    requires
        found_at(pat, buf, 0) is None,
    ensures
        replaced(pat, expand, tmpl, buf, budget) == buf,
        previewed(pat, expand, tmpl, buf, budget) == buf,
{
    reveal(segments_from);
    assert(buf.subrange(0, buf.len() as int) =~= buf);
}

/// A budget of `n` substitutes exactly the first `n` matches, or every match
/// where fewer exist; an unlimited budget substitutes every match.
pub proof fn lemma_cap_is_min(
    pat: Seq<u8>,
    expand: bool,
    tmpl: Seq<u8>,
    buf: Seq<u8>,
    pos: int,
    n: nat,
)
    ensures
        segments_from(pat, expand, tmpl, buf, pos, Some(n)).0.len() == vstd::math::min(
            n as int,
            match_count(pat, expand, tmpl, buf, pos) as int,
        ),
    decreases buf.len() + 1 - pos,
{
    reveal(segments_from);
    if 0 <= pos <= buf.len() && n > 0 {
        match found_at(pat, buf, pos) {
            None => {},
            Some(span) => {
                if pos <= span.0 && span.0 <= span.1 && span.1 <= buf.len() {
                    if span.0 < span.1 {
                        lemma_cap_is_min(pat, expand, tmpl, buf, span.1, (n - 1) as nat);
                    } else if span.0 < buf.len() {
                        lemma_cap_is_min(pat, expand, tmpl, buf, span.0 + 1, (n - 1) as nat);
                    }
                }
            },
        }
    }
}

/// No byte of `s` is the escape byte that opens a highlight marker.
pub open spec fn esc_free(s: Seq<u8>) -> bool {
    forall|i: int| 0 <= i < s.len() ==> s[i] != 27
}

/// `s` with every occurrence of the two highlight markers removed, scanning
/// left to right.
pub open spec fn strip_marks(s: Seq<u8>) -> Seq<u8>
    decreases s.len(),
{
    if s.len() == 0 {
        Seq::empty()
    } else if s.len() >= 5 && s.subrange(0, 5) == mark_on() {
        strip_marks(s.skip(5))
    } else if s.len() >= 4 && s.subrange(0, 4) == mark_off() {
        strip_marks(s.skip(4))
    } else {
        seq![s[0]] + strip_marks(s.drop_first())
    }
}

proof fn lemma_strip_concat_esc_free(a: Seq<u8>, b: Seq<u8>)
    requires
        esc_free(a),
    ensures
        strip_marks(a + b) == a + strip_marks(b),
    decreases a.len(),
{
    if a.len() == 0 {
        assert(a + b =~= b);
        assert(a + strip_marks(b) =~= strip_marks(b));
    } else {
        let s = a + b;
        assert(s[0] == a[0] && a[0] != 27);
        assert(s.len() >= 5 ==> s.subrange(0, 5)[0] == s[0]);
        assert(mark_on()[0] == 27 && mark_off()[0] == 27);
        assert(s.len() >= 5 ==> s.subrange(0, 5) != mark_on());
        assert(s.len() >= 4 ==> s.subrange(0, 4)[0] == s[0]);
        assert(s.len() >= 4 ==> s.subrange(0, 4) != mark_off());
        assert(s.drop_first() =~= a.drop_first() + b);
        lemma_strip_concat_esc_free(a.drop_first(), b);
        assert(seq![a[0]] + (a.drop_first() + strip_marks(b)) =~= a + strip_marks(b));
    }
}

proof fn lemma_strip_mark_on(b: Seq<u8>)
    ensures
        strip_marks(mark_on() + b) == strip_marks(b),
{
    let s = mark_on() + b;
    assert(s.subrange(0, 5) =~= mark_on());
    assert(s.skip(5) =~= b);
}

proof fn lemma_strip_mark_off(b: Seq<u8>)
    ensures
        strip_marks(mark_off() + b) == strip_marks(b),
{
    let s = mark_off() + b;
    assert(s.len() >= 5 ==> s.subrange(0, 5)[2] == mark_off()[2]);
    assert(mark_off()[2] != mark_on()[2]);
    assert(s.len() >= 5 ==> s.subrange(0, 5) != mark_on());
    assert(s.subrange(0, 4) =~= mark_off());
    assert(s.skip(4) =~= b);
}

/// Each segment's own bytes are free of the escape byte.
pub open spec fn seg_esc_free(seg: Segment) -> bool {
    esc_free(seg.gap) && esc_free(seg.rendered) && esc_free(seg.carried)
}

proof fn lemma_strip_flatten(segs: Seq<Segment>, tail: Seq<u8>)
    requires
        forall|i: int| 0 <= i < segs.len() ==> seg_esc_free(#[trigger] segs[i]),
        esc_free(tail),
    ensures
        strip_marks(flatten_marked(segs, tail)) == flatten_plain(segs, tail),
    decreases segs.len(),
{
    if segs.len() == 0 {
        lemma_strip_concat_esc_free(tail, Seq::empty());
        assert(tail + Seq::<u8>::empty() =~= tail);
        assert(tail + strip_marks(Seq::<u8>::empty()) =~= tail);
    } else {
        let x = segs[0];
        let rest = segs.drop_first();
        assert(seg_esc_free(x));
        assert(forall|i: int| 0 <= i < rest.len() ==> seg_esc_free(#[trigger] rest[i]));
        lemma_strip_flatten(rest, tail);
        let rf = flatten_marked(rest, tail);
        assert(flatten_marked(segs, tail) == marked_of(x) + rf);
        let r4 = x.carried + rf;
        let r3 = mark_off() + r4;
        let r2 = x.rendered + r3;
        let r1 = mark_on() + r2;
        assert(marked_of(x) + rf =~= x.gap + r1);
        lemma_strip_concat_esc_free(x.gap, r1);
        lemma_strip_mark_on(r2);
        lemma_strip_concat_esc_free(x.rendered, r3);
        lemma_strip_mark_off(r4);
        lemma_strip_concat_esc_free(x.carried, rf);
        assert(strip_marks(flatten_marked(segs, tail)) == x.gap + (x.rendered + (x.carried
            + flatten_plain(rest, tail))));
        assert(flatten_plain(segs, tail) == plain_of(x) + flatten_plain(rest, tail));
        assert(plain_of(x) + flatten_plain(rest, tail) =~= x.gap + (x.rendered + (x.carried
            + flatten_plain(rest, tail))));
    }
}

proof fn lemma_segments_esc_free(
    pat: Seq<u8>,
    expand: bool,
    tmpl: Seq<u8>,
    buf: Seq<u8>,
    pos: int,
    budget: Option<nat>,
)
    requires
        esc_free(buf),
        forall|p: int| esc_free(#[trigger] rendered_at(pat, expand, tmpl, buf, p)),
    ensures
        ({
            let sm = segments_from(pat, expand, tmpl, buf, pos, budget);
            (forall|i: int| 0 <= i < sm.0.len() ==> seg_esc_free(#[trigger] sm.0[i]))
                && esc_free(sm.1)
        }),
    decreases buf.len() + 1 - pos,
{
    reveal(segments_from);
    let sm = segments_from(pat, expand, tmpl, buf, pos, budget);
    if !(0 <= pos <= buf.len()) {
    } else if exhausted(budget) {
        assert(esc_free(buf.subrange(pos, buf.len() as int)));
    } else {
        match found_at(pat, buf, pos) {
            None => {
                assert(esc_free(buf.subrange(pos, buf.len() as int)));
            },
            Some(span) => {
                if pos <= span.0 && span.0 <= span.1 && span.1 <= buf.len() {
                    let gap = buf.subrange(pos, span.0);
                    let rendered = rendered_at(pat, expand, tmpl, buf, pos);
                    assert(esc_free(gap));
                    assert(esc_free(rendered));
                    if span.0 < span.1 {
                        lemma_segments_esc_free(pat, expand, tmpl, buf, span.1, spend(budget));
                        let rest = segments_from(pat, expand, tmpl, buf, span.1, spend(budget));
                        let head = Segment { gap, rendered, carried: Seq::<u8>::empty() };
                        assert(seg_esc_free(head));
                        assert(forall|i: int|
                            0 <= i < sm.0.len() ==> #[trigger] sm.0[i] == if i == 0 {
                                head
                            } else {
                                rest.0[i - 1]
                            });
                    } else if span.0 < buf.len() {
                        lemma_segments_esc_free(pat, expand, tmpl, buf, span.0 + 1, spend(budget));
                        let rest = segments_from(pat, expand, tmpl, buf, span.0 + 1, spend(budget));
                        let head = Segment { gap, rendered, carried: seq![buf[span.0]] };
                        assert(seg_esc_free(head));
                        assert(forall|i: int|
                            0 <= i < sm.0.len() ==> #[trigger] sm.0[i] == if i == 0 {
                                head
                            } else {
                                rest.0[i - 1]
                            });
                    } else {
                        let head = Segment { gap, rendered, carried: Seq::<u8>::empty() };
                        assert(seg_esc_free(head));
                        assert(sm.0 == seq![head]);
                    }
                } else {
                    assert(esc_free(buf.subrange(pos, buf.len() as int)));
                }
            },
        }
    }
}

/// Stripped of the highlight markers, the preview is byte for byte the
/// committed replacement, for every buffer and every rendered replacement
/// free of the marker escape byte (a buffer that itself contains highlight
/// markers would lose them to the stripping).
pub proof fn lemma_preview_stripped_is_replacement(
    pat: Seq<u8>,
    expand: bool,
    tmpl: Seq<u8>,
    buf: Seq<u8>,
    budget: Option<nat>,
)
    requires
        esc_free(buf),
        forall|p: int| esc_free(#[trigger] rendered_at(pat, expand, tmpl, buf, p)),
    ensures
        strip_marks(previewed(pat, expand, tmpl, buf, budget)) == replaced(
            pat,
            expand,
            tmpl,
            buf,
            budget,
        ),
{
    lemma_segments_esc_free(pat, expand, tmpl, buf, 0, budget);
    let sm = segments_from(pat, expand, tmpl, buf, 0, budget);
    lemma_strip_flatten(sm.0, sm.1);
}

} // verus!
