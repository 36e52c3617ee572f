use vstd::prelude::*;
use vstd::string::StrSliceExecFns;
use vstd::utf8::encode_utf8;

use crate::engine::{found_at, pattern_accepted, Matcher};
use crate::flags::{default_flags, flags_of, parse_flags, Flags};
use crate::model::{
    esc_free, lemma_no_match_identity, lemma_preview_stripped_is_replacement, lemma_scan_step,
    lemma_scan_stop, mark_off, mark_on, marked_of, plain_of, previewed, remaining, rendered_at,
    replaced, segments_from, spend, strip_marks, Segment,
};
use crate::outcome::Error;
use crate::pattern::{build_source, compiled_source};

verus! {

/// The options named by the optional flag string of a replacer.
pub open spec fn options_of(flags: Option<String>) -> Flags {
    match flags {
        None => default_flags(),
        Some(s) => flags_of(encode_utf8(s@)),
    }
}

/// The replacement budget named by the optional cap.
pub open spec fn budget_of(cap: Option<usize>) -> Option<nat> {
    match cap {
        None => None,
        Some(n) => Some(n as nat),
    }
}

/// A compiled pattern with its replacement template and optional substitution
/// cap. Built once, then shared read-only across jobs.
pub struct Replacer {
    matcher: Matcher,
    template: Vec<u8>,
    expand: bool,
    cap: Option<usize>,
}

impl Replacer {
    /// The pattern text the matcher was compiled from.
    pub closed spec fn pattern(&self) -> Seq<u8> {
        self.matcher.pattern()
    }

    /// The raw replacement template bytes.
    pub closed spec fn template_bytes(&self) -> Seq<u8> {
        self.template@
    }

    /// Whether capture references in the template are expanded (pattern
    /// mode); in literal mode the template is inserted verbatim.
    pub closed spec fn expands(&self) -> bool {
        self.expand
    }

    /// How many substitutions one buffer may receive; `None` is unlimited.
    pub closed spec fn budget(&self) -> Option<nat> {
        budget_of(self.cap)
    }

    /// What `replace` returns on `buf`.
    pub open spec fn replaced_output(&self, buf: Seq<u8>) -> Seq<u8> {
        replaced(self.pattern(), self.expands(), self.template_bytes(), buf, self.budget())
    }

    /// What `replace_preview` returns on `buf`.
    pub open spec fn previewed_output(&self, buf: Seq<u8>) -> Seq<u8> {
        previewed(self.pattern(), self.expands(), self.template_bytes(), buf, self.budget())
    }

    /// Build a replacer from the find text, the replacement template, the
    /// literal-mode switch, the flag string and the optional substitution
    /// cap. Fails exactly when the assembled pattern is not accepted by the
    /// compiler, and that failure is a `Pattern` error.
    pub fn new(
        find: String,
        replace_with: String,
        literal_mode: bool,
        flags: Option<String>,
        replacements: Option<usize>,
    ) -> (r: Result<Replacer, Error>)
        ensures
            r is Ok <==> pattern_accepted(
                compiled_source(encode_utf8(find@), literal_mode, options_of(flags)),
            ),
            r matches Ok(rep) ==> {
                &&& rep.pattern() == compiled_source(
                    encode_utf8(find@),
                    literal_mode,
                    options_of(flags),
                )
                &&& rep.template_bytes() == encode_utf8(replace_with@)
                &&& rep.expands() == !literal_mode
                &&& rep.budget() == budget_of(replacements)
            },
            r matches Err(e) ==> e is Pattern,
    {
        let f = parse_flags(&flags);
        let find_bytes = find.as_str().as_bytes_vec();
        let source = build_source(&find_bytes, literal_mode, &f);
        match Matcher::compile(&source) {
            Ok(matcher) => Ok(
                Replacer {
                    matcher,
                    template: replace_with.as_str().as_bytes_vec(),
                    expand: !literal_mode,
                    cap: replacements,
                },
            ),
            Err(report) => Err(Error::Pattern(report)),
        }
    }

    /// Whether the pattern matches anywhere in the buffer; stops scanning at
    /// the first match.
    pub fn has_matches(&self, buf: &[u8]) -> (r: bool)
        ensures
            r == (found_at(self.pattern(), buf@, 0) is Some),
    {
        self.matcher.is_match(buf)
    }

    /// The committed replacement of the buffer.
    pub fn replace(&self, buf: &[u8]) -> (r: Vec<u8>)
        ensures
            r@ == self.replaced_output(buf@),
    {
        self.scan(buf, false)
    }

    /// The highlighted preview of the buffer: the same substitutions, each
    /// rendered replacement wrapped in the highlight markers.
    pub fn replace_preview(&self, buf: &[u8]) -> (r: Vec<u8>)
        ensures
            r@ == self.previewed_output(buf@),
    {
        self.scan(buf, true)
    }

    /// A buffer without a match is returned unchanged, by replace and by
    /// preview alike.
    pub proof fn no_match_is_identity(&self, buf: Seq<u8>)
        requires
            found_at(self.pattern(), buf, 0) is None,
        ensures
            self.replaced_output(buf) == buf,
            self.previewed_output(buf) == buf,
    {
        lemma_no_match_identity(
            self.pattern(),
            self.expands(),
            self.template_bytes(),
            buf,
            self.budget(),
        );
    }

    /// Stripped of the highlight markers, the preview is byte for byte the
    /// committed replacement, whenever neither the buffer nor any rendered
    /// replacement holds the marker escape byte.
    pub proof fn preview_strips_to_replacement(&self, buf: Seq<u8>)
        requires
            esc_free(buf),
            forall|p: int|
                esc_free(
                    #[trigger] rendered_at(
                        self.pattern(),
                        self.expands(),
                        self.template_bytes(),
                        buf,
                        p,
                    ),
                ),
        ensures
            strip_marks(self.previewed_output(buf)) == self.replaced_output(buf),
    {
        lemma_preview_stripped_is_replacement(
            self.pattern(),
            self.expands(),
            self.template_bytes(),
            buf,
            self.budget(),
        );
    }

    /// The next match at or after `pos`, with its rendered replacement.
    fn next_hit(&self, buf: &[u8], pos: usize) -> (r: Option<(usize, usize, Vec<u8>)>)
        requires
            pos <= buf@.len(),
        ensures
            match r {
                Some(hit) => found_at(self.pattern(), buf@, pos as int) == Some(
                    (hit.0 as int, hit.1 as int),
                ) && pos <= hit.0 <= hit.1 <= buf@.len() && hit.2@ == rendered_at(
                    self.pattern(),
                    self.expands(),
                    self.template_bytes(),
                    buf@,
                    pos as int,
                ),
                None => found_at(self.pattern(), buf@, pos as int) is None,
            },
    {
        if self.expand {
            self.matcher.expand_from(buf, pos, &self.template)
        } else {
            match self.matcher.find_from(buf, pos) {
                Some(span) => {
                    let mut verbatim: Vec<u8> = Vec::new();
                    push_range(&mut verbatim, self.template.as_slice(), 0, self.template.len());
                    proof {
                        assert(verbatim@ =~= self.template@);
                    }
                    Some((span.0, span.1, verbatim))
                },
                None => None,
            }
        }
    }

    /// One left-to-right scan: committed output, or the marked preview.
    #[verifier::rlimit(100)]
    fn scan(&self, buf: &[u8], marked: bool) -> (r: Vec<u8>)
        ensures
            marked ==> r@ == self.previewed_output(buf@),
            !marked ==> r@ == self.replaced_output(buf@),
    {
        let ghost pat = self.pattern();
        let ghost tmpl = self.template@;
        let ghost full = segments_from(pat, self.expand, tmpl, buf@, 0, self.budget());
        let ghost goal = flatten_for(marked, full.0, full.1);
        let n = buf.len();
        let mut out: Vec<u8> = Vec::new();
        let mut pos: usize = 0;
        let mut used: usize = 0;
        proof {
            assert(out@ + goal =~= goal);
        }
        loop
            invariant
                pos <= n,
                n == buf@.len(),
                used <= pos,
                self.cap matches Some(c) ==> used <= c,
                ({
                    let sm = segments_from(
                        pat,
                        self.expand,
                        tmpl,
                        buf@,
                        pos as int,
                        remaining(self.budget(), used as nat),
                    );
                    goal == out@ + flatten_for(marked, sm.0, sm.1)
                }),
                pat == self.pattern(),
                tmpl == self.template_bytes(),
                goal == flatten_for(
                    marked,
                    segments_from(pat, self.expand, tmpl, buf@, 0, self.budget()).0,
                    segments_from(pat, self.expand, tmpl, buf@, 0, self.budget()).1,
                ),
            decreases n - pos,
        {
            let ghost rem = remaining(self.budget(), used as nat);
            let capped = match self.cap {
                Some(c) => used >= c,
                None => false,
            };
            if capped {
                proof {
                    lemma_scan_stop(pat, self.expand, tmpl, buf@, pos as int, rem);
                }
                push_range(&mut out, buf, pos, n);
                return out;
            }
            match self.next_hit(buf, pos) {
                None => {
                    proof {
                        lemma_scan_stop(pat, self.expand, tmpl, buf@, pos as int, rem);
                    }
                    push_range(&mut out, buf, pos, n);
                    return out;
                },
                Some(hit) => {
                    let s = hit.0;
                    let e = hit.1;
                    let rendered = hit.2;
                    let ghost head = Segment {
                        gap: buf@.subrange(pos as int, s as int),
                        rendered: rendered@,
                        carried: if s == e && s < n {
                            seq![buf@[s as int]]
                        } else {
                            Seq::<u8>::empty()
                        },
                    };
                    proof {
                        lemma_scan_step(
                            pat,
                            self.expand,
                            tmpl,
                            buf@,
                            pos as int,
                            rem,
                            s as int,
                            e as int,
                        );
                    }
                    let ghost out0 = out@;
                    push_range(&mut out, buf, pos, s);
                    if marked {
                        push_mark_on(&mut out);
                    }
                    push_range(&mut out, rendered.as_slice(), 0, rendered.len());
                    if marked {
                        push_mark_off(&mut out);
                    }
                    if s < e {
                        used = used + 1;
                        proof {
                            if marked {
                                assert(out@ =~= out0 + marked_of(head));
                            } else {
                                assert(out@ =~= out0 + plain_of(head));
                            }
                            let rest = segments_from(
                                pat,
                                self.expand,
                                tmpl,
                                buf@,
                                e as int,
                                spend(rem),
                            );
                            assert(spend(rem) == remaining(self.budget(), used as nat));
                            assert((out0 + flat_of(marked, head)) + flatten_for(
                                marked,
                                rest.0,
                                rest.1,
                            ) =~= out0 + (flat_of(marked, head) + flatten_for(
                                marked,
                                rest.0,
                                rest.1,
                            )));
                        }
                        pos = e;
                    } else if s < n {
                        out.push(buf[s]);
                        used = used + 1;
                        proof {
                            if marked {
                                assert(out@ =~= out0 + marked_of(head));
                            } else {
                                assert(out@ =~= out0 + plain_of(head));
                            }
                            let rest = segments_from(
                                pat,
                                self.expand,
                                tmpl,
                                buf@,
                                s + 1,
                                spend(rem),
                            );
                            assert(spend(rem) == remaining(self.budget(), used as nat));
                            assert((out0 + flat_of(marked, head)) + flatten_for(
                                marked,
                                rest.0,
                                rest.1,
                            ) =~= out0 + (flat_of(marked, head) + flatten_for(
                                marked,
                                rest.0,
                                rest.1,
                            )));
                        }
                        pos = s + 1;
                    } else {
                        proof {
                            if marked {
                                assert(out@ =~= out0 + marked_of(head));
                            } else {
                                assert(out@ =~= out0 + plain_of(head));
                            }
                        }
                        return out;
                    }
                },
            }
        }
    }
}

/// The bytes a segment contributes under the chosen flattening.
pub open spec fn flat_of(marked: bool, seg: Segment) -> Seq<u8> {
    if marked {
        crate::model::marked_of(seg)
    } else {
        crate::model::plain_of(seg)
    }
}

/// Which flattening the scan is producing.
pub open spec fn flatten_for(marked: bool, segs: Seq<Segment>, tail: Seq<u8>) -> Seq<u8> {
    if marked {
        crate::model::flatten_marked(segs, tail)
    } else {
        crate::model::flatten_plain(segs, tail)
    }
}

/// Append `src[from..to]` to `out`.
fn push_range(out: &mut Vec<u8>, src: &[u8], from: usize, to: usize)
    requires
        from <= to <= src@.len(),
    ensures
        final(out)@ == old(out)@ + src@.subrange(from as int, to as int),
{
    proof {
        assert(old(out)@ + src@.subrange(from as int, from as int) =~= old(out)@);
    }
    let mut i = from;
    while i < to
        invariant
            from <= i <= to <= src@.len(),
            out@ == old(out)@ + src@.subrange(from as int, i as int),
        decreases to - i,
    {
        out.push(src[i]);
        proof {
            assert(src@.subrange(from as int, i + 1) =~= src@.subrange(from as int, i as int).push(
                src@[i as int],
            ));
        }
        i += 1;
    }
}

/// Append the highlight-begin marker.
fn push_mark_on(out: &mut Vec<u8>)
    ensures
        final(out)@ == old(out)@ + mark_on(),
{
    out.push(27);
    out.push(91);
    out.push(51);
    out.push(50);
    out.push(109);
    proof {
        assert(out@ =~= old(out)@ + mark_on());
    }
}

/// Append the highlight-end marker.
fn push_mark_off(out: &mut Vec<u8>)
    ensures
        final(out)@ == old(out)@ + mark_off(),
{
    out.push(27);
    out.push(91);
    out.push(48);
    out.push(109);
    proof {
        assert(out@ =~= old(out)@ + mark_off());
    }
}

} // verus!
