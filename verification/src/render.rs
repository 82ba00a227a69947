use std::collections::HashSet;
use vstd::std_specs::iter::IteratorSpec;
use vstd::prelude::*;

verus! {

/// What is kept of a row of screen text between frames: the text it was
/// last drawn with, if it was drawn.
#[derive(Debug, Clone, PartialEq, Eq)]
pub struct CachedRow {
    pub text: Option<String>,
}

impl Default for CachedRow {
    /// A row not drawn yet.
    fn default() -> (r: Self)
        ensures
            r.text is None,
    {
        CachedRow { text: None }
    }
}

/// The lines of screen text, what is kept of each row, and which rows have
/// to be drawn again.
pub struct TerminalRenderState {
    pub lines: Vec<String>,
    pub row_cache: Vec<CachedRow>,
    pub dirty_rows: HashSet<usize>,
}

impl TerminalRenderState {
    /// The rows that have to be drawn again.
    pub open spec fn dirty(&self) -> Set<usize> {
        self.dirty_rows@
    }

    /// The lines of text.
    pub open spec fn text_lines(&self) -> Seq<String> {
        self.lines@
    }

    /// What is kept of each row.
    pub open spec fn cached_rows(&self) -> Seq<CachedRow> {
        self.row_cache@
    }

    /// No lines, nothing cached, nothing to draw again.
    pub fn new() -> (r: Self)
        ensures
            r.text_lines().len() == 0,
            r.cached_rows().len() == 0,
            r.dirty() == Set::<usize>::empty(),
    {
        TerminalRenderState { lines: Vec::new(), row_cache: Vec::new(), dirty_rows: HashSet::new() }
    }

    /// Marks a row to be drawn again.
    pub fn mark_dirty(&mut self, row: usize)
        ensures
            final(self).dirty() == old(self).dirty().insert(row),
            final(self).text_lines() == old(self).text_lines(),
            final(self).cached_rows() == old(self).cached_rows(),
    {
        self.dirty_rows.insert(row);
    }

    /// Marks every line to be drawn again, and no other row.
    pub fn mark_all_dirty(&mut self)
        ensures
            final(self).dirty() == Set::new(|r: usize| r < old(self).text_lines().len()),
            final(self).text_lines() == old(self).text_lines(),
            final(self).cached_rows() == old(self).cached_rows(),
    {
        let mut rows: HashSet<usize> = HashSet::new();
        let n = self.lines.len();
        let mut i: usize = 0;
        while i < n
            invariant
                i <= n,
                n == self.lines@.len(),
                rows@ == Set::new(|r: usize| r < i),
            decreases n - i,
        {
            rows.insert(i);
            i += 1;
            assert(rows@ =~= Set::new(|r: usize| r < i));
        }
        assert(rows@ =~= Set::new(|r: usize| r < self.lines@.len()));
        self.dirty_rows = rows;
    }

    /// Hands out the rows to draw again, each once and in no particular
    /// order, and forgets them.
    pub fn take_and_clear_dirty_rows(&mut self) -> (r: Vec<usize>)
        ensures
            r@.to_set() == old(self).dirty(),
            r@.no_duplicates(),
            final(self).dirty() == Set::<usize>::empty(),
            final(self).text_lines() == old(self).text_lines(),
            final(self).cached_rows() == old(self).cached_rows(),
    {
        let ghost m = self.dirty_rows@;
        proof {
            vstd::std_specs::hash::axiom_spec_hash_keys_iter(&self.dirty_rows);
        }
        let ghost all = vstd::std_specs::hash::spec_hash_keys_iter(&self.dirty_rows).remaining().unref();
        let mut out: Vec<usize> = Vec::new();
        for x in it: self.dirty_rows.iter()
            invariant
                m == self.dirty_rows@,
                all.to_set() == m,
                all.no_duplicates(),
                all.len() == m.len(),
                it.seq().unref() == all,
                out@ == all.take(it.index()),
        {
            out.push(*x);
            assert(out@ =~= all.take(it.index() + 1));
        }
        proof {
            assert(out@.len() == m.len());
            assert(out@ =~= all);
        }
        self.dirty_rows.clear();
        out
    }

    /// Makes room in the row cache for every line: rows not cached yet
    /// start as not drawn.
    pub fn ensure_row_cache(&mut self)
        ensures
            final(self).text_lines() == old(self).text_lines(),
            final(self).dirty() == old(self).dirty(),
            old(self).cached_rows().len() >= old(self).text_lines().len() ==> final(self).cached_rows()
                == old(self).cached_rows(),
            old(self).cached_rows().len() < old(self).text_lines().len() ==> {
                &&& final(self).cached_rows().len() == old(self).text_lines().len()
                &&& final(self).cached_rows().take(old(self).cached_rows().len() as int)
                    == old(self).cached_rows()
                &&& forall|k: int|
                    old(self).cached_rows().len() <= k < final(self).cached_rows().len()
                        ==> (#[trigger] final(self).cached_rows()[k]).text is None
            },
    {
        let n = self.lines.len();
        if self.row_cache.len() < n {
            let ghost before = self.row_cache@;
            let ghost lines = self.lines@;
            let ghost dirty = self.dirty_rows@;
            while self.row_cache.len() < n
                invariant
                    n == self.lines@.len(),
                    self.lines@ == lines,
                    self.dirty_rows@ == dirty,
                    before.len() <= self.row_cache@.len() <= n,
                    self.row_cache@.take(before.len() as int) == before,
                    forall|k: int|
                        before.len() <= k < self.row_cache@.len() ==> (
                        #[trigger] self.row_cache@[k]).text is None,
                decreases n - self.row_cache@.len(),
            {
                let ghost pre = self.row_cache@;
                self.row_cache.push(CachedRow::default());
                assert(self.row_cache@.take(before.len() as int) =~= pre.take(before.len() as int));
            }
        }
    }
}

impl Default for TerminalRenderState {
    fn default() -> (r: Self)
        ensures
            r.text_lines().len() == 0,
            r.cached_rows().len() == 0,
            r.dirty() == Set::<usize>::empty(),
    {
        Self::new()
    }
}

/// Whether the outlines of the parts of the view are drawn, to see how they
/// are laid out.
pub struct DebugRenderer {
    pub enable: bool,
}

impl DebugRenderer {
    /// Outlines off.
    pub fn new() -> (r: Self)
        ensures
            !r.enable,
    {
        Self { enable: false }
    }
}

} // verus!
