//! The walk over the tree under the root, as a worklist of directories.
//!
//! The caller lists each directory that [`Walk::next_dir`] hands out and
//! reports its entries with [`Walk::record`]; files are collected and
//! subdirectories queued, until no directory is left.
use vstd::prelude::*;

verus! {

/// An entry of a listed directory: its path relative to the root, one
/// component per element, and whether it is a directory.
pub struct Listed {
    pub components: Vec<String>,
    pub is_dir: bool,
}

pub type PathView = Seq<Seq<char>>;

/// The entries that are files, in order.
pub open spec fn files_of(entries: Seq<Listed>) -> Seq<PathView>
    decreases entries.len(),
{
    if entries.len() == 0 {
        Seq::empty()
    } else if entries.last().is_dir {
        files_of(entries.drop_last())
    } else {
        files_of(entries.drop_last()).push(entries.last().components.deep_view())
    }
}

/// The entries that are directories, in order.
pub open spec fn dirs_of(entries: Seq<Listed>) -> Seq<PathView>
    decreases entries.len(),
{
    if entries.len() == 0 {
        Seq::empty()
    } else if entries.last().is_dir {
        dirs_of(entries.drop_last()).push(entries.last().components.deep_view())
    } else {
        dirs_of(entries.drop_last())
    }
}

/// Directories still to list and files found so far.
pub struct Walk {
    pending: Vec<Vec<String>>,
    found: Vec<Vec<String>>,
}

impl Walk {
    pub closed spec fn pending_view(&self) -> Seq<PathView> {
        self.pending.deep_view()
    }

    pub closed spec fn found_view(&self) -> Seq<PathView> {
        self.found.deep_view()
    }

    /// A walk that starts at the root, with nothing found yet.
    pub fn new() -> (r: Walk)
        ensures
            r.pending_view() == seq![Seq::<Seq<char>>::empty()],
            r.found_view() == Seq::<PathView>::empty(),
    {
        let root: Vec<String> = Vec::new();
        let mut pending: Vec<Vec<String>> = Vec::new();
        assert(root.deep_view() =~= Seq::<Seq<char>>::empty());
        pending.push(root);
        let found: Vec<Vec<String>> = Vec::new();
        assert(pending.deep_view() =~= seq![Seq::<Seq<char>>::empty()]);
        assert(found.deep_view() =~= Seq::<PathView>::empty());
        Walk { pending, found }
    }

    /// The walk is over when no directory is left to list.
    pub fn is_done(&self) -> (r: bool)
        ensures
            r == (self.pending_view().len() == 0),
    {
        self.pending.len() == 0
    }

    /// Takes the next directory to list, the one queued last.
    pub fn next_dir(&mut self) -> (r: Option<Vec<String>>)
        ensures
            final(self).found_view() == old(self).found_view(),
            old(self).pending_view().len() == 0 ==> r is None && final(self).pending_view()
                == old(self).pending_view(),
            old(self).pending_view().len() > 0 ==> (r matches Some(d) && d.deep_view()
                == old(self).pending_view().last()),
            old(self).pending_view().len() > 0 ==> final(self).pending_view()
                == old(self).pending_view().drop_last(),
    {
        if self.pending.len() == 0 {
            return None;
        }
        let ghost before = self.pending.deep_view();
        let r = self.pending.pop();
        assert(self.pending.deep_view() =~= before.drop_last());
        r
    }

    /// Files of a directory's listing join the files found, its
    /// subdirectories the directories to list.
    pub fn record(&mut self, entries: Vec<Listed>)
        ensures
            final(self).found_view() == old(self).found_view() + files_of(entries@),
            final(self).pending_view() == old(self).pending_view() + dirs_of(entries@),
    {
        let ghost f0 = self.found.deep_view();
        let ghost p0 = self.pending.deep_view();
        let ghost all = entries@;
        let mut entries = entries;
        let mut i: usize = 0;
        assert(all.len() == entries.len());
        assert(all.take(0) =~= Seq::<Listed>::empty());
        assert(f0 + Seq::<PathView>::empty() =~= f0);
        assert(p0 + Seq::<PathView>::empty() =~= p0);
        while entries.len() > 0
            invariant
                i + entries@.len() == all.len(),
                all.len() <= usize::MAX,
                entries@ == all.skip(i as int),
                self.found.deep_view() == f0 + files_of(all.take(i as int)),
                self.pending.deep_view() == p0 + dirs_of(all.take(i as int)),
            decreases entries.len(),
        {
            let ghost before = entries@;
            let e = entries.remove(0);
            proof {
                assert(e == all[i as int]);
                assert(all.take(i + 1).drop_last() =~= all.take(i as int));
                assert(entries@ =~= all.skip(i + 1));
            }
            let ghost fv = self.found.deep_view();
            let ghost pv = self.pending.deep_view();
            let ghost ev = e.components.deep_view();
            if e.is_dir {
                self.pending.push(e.components);
                assert(self.pending.deep_view() =~= pv.push(ev));
                assert(p0 + dirs_of(all.take(i + 1)) =~= (p0 + dirs_of(all.take(i as int))).push(ev));
            } else {
                self.found.push(e.components);
                assert(self.found.deep_view() =~= fv.push(ev));
                assert(f0 + files_of(all.take(i + 1)) =~= (f0 + files_of(all.take(i as int))).push(ev));
            }
            i = i + 1;
        }
        assert(all.take(i as int) =~= all);
    }

    /// The files found, each as its components relative to the root.
    pub fn into_found(self) -> (r: Vec<Vec<String>>)
        ensures
            r.deep_view() == self.found_view(),
    {
        self.found
    }
}

} // verus!
