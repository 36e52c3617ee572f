use vstd::prelude::*;

use crate::replacer::Replacer;

verus! {

/// Everything one run is given: the find text, the replacement template, the
/// mode switches and the target globs. An empty glob list means the single
/// buffer comes from the standard input.
pub struct Options {
    /// Render the highlighted preview instead of mutating files.
    pub preview: bool,
    /// Treat the find and replacement texts as literal strings.
    pub literal_mode: bool,
    /// Cap on the number of substitutions per buffer.
    pub replacements: Option<usize>,
    /// Single-letter matching flags, combinable.
    pub flags: Option<String>,
    /// The text or pattern to search for.
    pub find: String,
    /// What to replace each match with.
    pub replace_with: String,
    /// The globs naming the target files.
    pub globs: Vec<String>,
}

/// Where the buffers of a run come from.
pub enum Source {
    /// One buffer read from the standard input.
    Stdin,
    /// The files named by these globs, mutated in place or previewed.
    Files(Vec<String>),
}

/// A glob list selects the file source; an empty one selects the standard
/// input.
pub fn select_source(globs: Vec<String>) -> (r: Source)
    ensures
        globs@.len() == 0 ==> r is Stdin,
        globs@.len() > 0 ==> (r matches Source::Files(g) && g@ == globs@),
{
    if globs.len() == 0 {
        Source::Stdin
    } else {
        Source::Files(globs)
    }
}

/// One run: a compiled replacer and the source of its buffers, both built
/// once and shared read-only for the run's duration.
pub struct App {
    replacer: Replacer,
    source: Source,
}

impl App {
    /// The replacer every job of this run shares.
    pub closed spec fn spec_replacer(&self) -> &Replacer {
        &self.replacer
    }

    /// The source of this run's buffers.
    pub closed spec fn spec_source(&self) -> &Source {
        &self.source
    }

    pub fn new(source: Source, replacer: Replacer) -> (r: App)
        ensures
            *r.spec_replacer() == replacer,
            *r.spec_source() == source,
    {
        App { source, replacer }
    }

    /// The replacer, shared by reference: it is never copied per job.
    pub fn replacer(&self) -> (r: &Replacer)
        ensures
            r == self.spec_replacer(),
    {
        &self.replacer
    }

    /// The source, shared by reference.
    pub fn source(&self) -> (r: &Source)
        ensures
            r == self.spec_source(),
    {
        &self.source
    }
}

} // verus!
