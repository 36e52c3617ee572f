use vstd::prelude::*;

verus! {

#[verifier::external_type_specification]
#[verifier::external_body]
pub struct ExRegex(regex::bytes::Regex);

/// Whether the byte sequence is well-formed UTF-8 that the pattern-language
/// compiler accepts as a pattern.
pub uninterp spec fn pattern_accepted(pat: Seq<u8>) -> bool;

/// The leftmost match of the compiled pattern `pat` over `hay` that begins at
/// or after byte `from`: the half-open span `(start, end)`, or `None` when no
/// such match exists.
pub uninterp spec fn found_at(pat: Seq<u8>, hay: Seq<u8>, from: int) -> Option<(int, int)>;

/// The template `tmpl` with every capture reference replaced by the bytes the
/// corresponding group captured in the match `found_at(pat, hay, from)`, and
/// by empty bytes for a group that did not participate.
pub uninterp spec fn expanded_at(pat: Seq<u8>, hay: Seq<u8>, from: int, tmpl: Seq<u8>) -> Seq<u8>;

/// A compiled matcher together with the pattern text it was built from.
///
/// The fields are private and the only constructor is `compile`, so the
/// compiled form always corresponds to `pat`; the contracts of the methods
/// below rely on that correspondence.
pub struct Matcher {
    re: regex::bytes::Regex,
    pat: Vec<u8>,
}

impl Matcher {
    /// The pattern text this matcher was compiled from.
    pub closed spec fn pattern(&self) -> Seq<u8> {
        self.pat@
    }

    /// Relies on regex::bytes::Regex::new, which accepts exactly the
    /// well-formed patterns, and on str::from_utf8, which accepts exactly
    /// well-formed UTF-8; the error is returned as its display text.
    #[verifier::external_body]
    pub(crate) fn compile(pat: &Vec<u8>) -> (r: Result<Matcher, String>)
        ensures
            r is Ok <==> pattern_accepted(pat@),
            r matches Ok(m) ==> m.pattern() == pat@,
    {
        let text = match std::str::from_utf8(pat) {
            Ok(t) => t,
            Err(e) => return Err(format!("{}", e)),
        };
        match regex::bytes::Regex::new(text) {
            Ok(re) => Ok(Matcher { re, pat: pat.clone() }),
            Err(e) => Err(format!("{}", e)),
        }
    }

    /// Relies on regex::bytes::Regex::is_match: true exactly when the pattern
    /// matches somewhere in `hay`.
    #[verifier::external_body]
    pub(crate) fn is_match(&self, hay: &[u8]) -> (r: bool)
        ensures
            r == (found_at(self.pattern(), hay@, 0) is Some),
    {
        self.re.is_match(hay)
    }

    /// Relies on regex::bytes::Regex::find_at: the leftmost match beginning
    /// at or after `from`, whose span lies within the haystack.
    #[verifier::external_body]
    pub(crate) fn find_from(&self, hay: &[u8], from: usize) -> (r: Option<(usize, usize)>)
        requires
            from <= hay@.len(),
        ensures
            match r {
                Some(span) => found_at(self.pattern(), hay@, from as int) == Some(
                    (span.0 as int, span.1 as int),
                ) && from <= span.0 <= span.1 <= hay@.len(),
                None => found_at(self.pattern(), hay@, from as int) is None,
            },
    {
        self.re.find_at(hay, from).map(|m| (m.start(), m.end()))
    }

    /// Relies on regex::bytes::Regex::captures_at, which finds the same
    /// leftmost match as find_at, and on regex::bytes::Captures::expand for
    /// the rendered template.
    #[verifier::external_body]
    pub(crate) fn expand_from(&self, hay: &[u8], from: usize, tmpl: &Vec<u8>) -> (r: Option<
        (usize, usize, Vec<u8>),
    >)
        requires
            from <= hay@.len(),
        ensures
            match r {
                Some(hit) => found_at(self.pattern(), hay@, from as int) == Some(
                    (hit.0 as int, hit.1 as int),
                ) && from <= hit.0 <= hit.1 <= hay@.len() && hit.2@ == expanded_at(
                    self.pattern(),
                    hay@,
                    from as int,
                    tmpl@,
                ),
                None => found_at(self.pattern(), hay@, from as int) is None,
            },
    {
        match self.re.captures_at(hay, from) {
            Some(caps) => {
                let m = caps.get(0).unwrap();
                let mut rendered = Vec::new();
                caps.expand(tmpl, &mut rendered);
                Some((m.start(), m.end(), rendered))
            },
            None => None,
        }
    }
}

} // verus!
