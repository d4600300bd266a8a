//! The files of an index and the chunks that each of them has.
use vstd::prelude::*;

use crate::text::{owned, str_eq};

verus! {

/// A file and its chunks.
#[derive(Debug)]
pub struct FileChunks {
    pub path: String,
    pub chunk_ids: Vec<u32>,
}

/// The paths are all different.
pub open spec fn distinct_paths(rows: Seq<FileChunks>) -> bool {
    forall|i: int, j: int|
        0 <= i < j < rows.len() ==> (#[trigger] rows[i]).path@ != (#[trigger] rows[j]).path@
}

/// What rows say of each path; of two rows with one path, the later one counts.
pub open spec fn table_of(rows: Seq<FileChunks>) -> Map<Seq<char>, Seq<u32>>
    decreases rows.len(),
{
    if rows.len() == 0 {
        Map::empty()
    } else {
        table_of(rows.drop_last()).insert(rows.last().path@, rows.last().chunk_ids@)
    }
}

/// A row tells what the table holds, where the paths are all different.
pub proof fn lemma_table_row(rows: Seq<FileChunks>, i: int)
    requires
        distinct_paths(rows),
        0 <= i < rows.len(),
    ensures
        table_of(rows).dom().contains(rows[i].path@),
        table_of(rows)[rows[i].path@] == rows[i].chunk_ids@,
    decreases rows.len(),
{
    if i < rows.len() - 1 {
        let front = rows.drop_last();
        assert(front[i] == rows[i]);
        assert forall|a: int, b: int| 0 <= a < b < front.len() implies (#[trigger] front[a]).path@
            != (#[trigger] front[b]).path@ by {
            assert(front[a] == rows[a] && front[b] == rows[b]);
        }
        lemma_table_row(front, i);
        assert(rows[i].path@ != rows[rows.len() - 1].path@);
    }
}

/// What the table holds comes from a row.
pub proof fn lemma_table_has_row(rows: Seq<FileChunks>, path: Seq<char>)
    requires
        table_of(rows).dom().contains(path),
    ensures
        exists|i: int| 0 <= i < rows.len() && (#[trigger] rows[i]).path@ == path,
    decreases rows.len(),
{
    if rows.len() > 0 {
        if rows.last().path@ == path {
            assert(rows[rows.len() - 1].path@ == path);
        } else {
            lemma_table_has_row(rows.drop_last(), path);
            let i = choose|i: int|
                0 <= i < rows.drop_last().len() && (#[trigger] rows.drop_last()[i]).path@ == path;
            assert(rows[i].path@ == path);
        }
    }
}

/// The files of an index: for each path, the chunks of that file.
#[derive(Debug)]
pub struct FileTable {
    rows: Vec<FileChunks>,
}

impl View for FileTable {
    type V = Map<Seq<char>, Seq<u32>>;

    closed spec fn view(&self) -> Map<Seq<char>, Seq<u32>> {
        table_of(self.rows@)
    }
}

impl FileTable {
    #[verifier::type_invariant]
    spec fn distinct(self) -> bool {
        distinct_paths(self.rows@)
    }

    /// No files.
    pub fn new() -> (r: FileTable)
        ensures
            r@ == Map::<Seq<char>, Seq<u32>>::empty(),
    {
        FileTable { rows: Vec::new() }
    }

    /// Whether there are no files.
    pub fn is_empty(&self) -> (r: bool)
        ensures
            r == (self@ == Map::<Seq<char>, Seq<u32>>::empty()),
    {
        proof {
            if self.rows@.len() > 0 {
                use_type_invariant(self);
                lemma_table_row(self.rows@, 0);
                assert(!Map::<Seq<char>, Seq<u32>>::empty().dom().contains(self.rows@[0].path@));
            }
        }
        self.rows.len() == 0
    }

    /// The row of a path, or the number of the rows.
    fn place_of(&self, path: &str) -> (r: usize)
        ensures
            r <= self.rows.len(),
            r < self.rows.len() ==> self.rows@[r as int].path@ == path@,
            r == self.rows.len() ==> !self@.dom().contains(path@),
    {
        let mut i: usize = 0;
        while i < self.rows.len()
            invariant
                i <= self.rows.len(),
                forall|j: int| 0 <= j < i ==> (#[trigger] self.rows@[j]).path@ != path@,
            decreases self.rows.len() - i,
        {
            if str_eq(self.rows[i].path.as_str(), path) {
                return i;
            }
            i += 1;
        }
        proof {
            if table_of(self.rows@).dom().contains(path@) {
                lemma_table_has_row(self.rows@, path@);
            }
        }
        i
    }

    /// The chunks of a file.
    pub fn get(&self, path: &str) -> (r: Option<&Vec<u32>>)
        ensures
            match r {
                Some(ids) => self@.dom().contains(path@) && self@[path@] == ids@,
                None => !self@.dom().contains(path@),
            },
    {
        let i: usize = self.place_of(path);
        if i < self.rows.len() {
            proof {
                use_type_invariant(self);
                lemma_table_row(self.rows@, i as int);
            }
            Some(&self.rows[i].chunk_ids)
        } else {
            None
        }
    }

    /// Takes a file out, and gives back its chunks.
    pub fn remove(&mut self, path: &str) -> (r: Option<Vec<u32>>)
        ensures
            final(self)@ == old(self)@.remove(path@),
            match r {
                Some(ids) => old(self)@.dom().contains(path@) && old(self)@[path@] == ids@,
                None => !old(self)@.dom().contains(path@),
            },
    {
        proof {
            use_type_invariant(&*self);
        }
        let i: usize = self.place_of(path);
        if i >= self.rows.len() {
            proof {
                assert(self@.remove(path@) =~= self@);
            }
            return None;
        }
        let ghost before = self.rows@;
        let mut rows: Vec<FileChunks> = Vec::new();
        std::mem::swap(&mut rows, &mut self.rows);
        let row = rows.remove(i);
        proof {
            lemma_table_row(before, i as int);
            lemma_without_row(before, i as int);
        }
        self.rows = rows;
        Some(row.chunk_ids)
    }

    /// Records the chunks of a file, in place of what was recorded before.
    pub fn insert(&mut self, path: &str, chunk_ids: Vec<u32>)
        ensures
            final(self)@ == old(self)@.insert(path@, chunk_ids@),
    {
        let _ = self.remove(path);
        proof {
            use_type_invariant(&*self);
            assert(!self@.dom().contains(path@));
            assert forall|j: int| 0 <= j < self.rows@.len() implies (
            #[trigger] self.rows@[j]).path@ != path@ by {
                lemma_table_row(self.rows@, j);
            }
        }
        let ghost before = self.rows@;
        let mut rows: Vec<FileChunks> = Vec::new();
        std::mem::swap(&mut rows, &mut self.rows);
        rows.push(FileChunks { path: owned(path), chunk_ids });
        proof {
            assert(rows@.drop_last() =~= before);
            assert(rows@.last().path@ == path@ && rows@.last().chunk_ids@ == chunk_ids@);
            assert(table_of(rows@) =~= table_of(before).insert(path@, chunk_ids@));
            assert forall|a: int, b: int| 0 <= a < b < rows@.len() implies (
            #[trigger] rows@[a]).path@ != (#[trigger] rows@[b]).path@ by {
                assert(rows@[a] == before[a]);
                if b < before.len() {
                    assert(rows@[b] == before[b]);
                }
            }
        }
        self.rows = rows;
        proof {
            assert(self@ =~= old(self)@.insert(path@, chunk_ids@));
        }
    }

    /// Records every file of another table, in place of what was recorded of
    /// it before.
    pub fn record_all(&mut self, other: &FileTable)
        ensures
            final(self)@ == old(self)@.union_prefer_right(other@),
    {
        let mut i: usize = 0;
        proof {
            assert(self@.union_prefer_right(table_of(other.rows@.take(0))) =~= self@);
        }
        while i < other.rows.len()
            invariant
                i <= other.rows.len(),
                self@ == old(self)@.union_prefer_right(table_of(other.rows@.take(i as int))),
            decreases other.rows.len() - i,
        {
            let ids = copy_ids(&other.rows[i].chunk_ids);
            self.insert(other.rows[i].path.as_str(), ids);
            proof {
                let t = other.rows@.take(i + 1);
                assert(t.drop_last() =~= other.rows@.take(i as int));
                assert(self@ =~= old(self)@.union_prefer_right(table_of(t)));
            }
            i += 1;
        }
        proof {
            assert(other.rows@.take(other.rows@.len() as int) =~= other.rows@);
        }
    }

    /// The paths of the files.
    pub fn paths(&self) -> (r: Vec<String>)
        ensures
            forall|p: Seq<char>| #[trigger]
                self@.dom().contains(p) <==> crate::text::views(r@).contains(p),
    {
        let mut out: Vec<String> = Vec::new();
        let mut i: usize = 0;
        while i < self.rows.len()
            invariant
                i <= self.rows.len(),
                out@.len() == i,
                forall|j: int| 0 <= j < i ==> (#[trigger] out@[j])@ == self.rows@[j].path@,
            decreases self.rows.len() - i,
        {
            out.push(owned(self.rows[i].path.as_str()));
            i += 1;
        }
        proof {
            use_type_invariant(self);
            let vs = crate::text::views(out@);
            assert forall|p: Seq<char>| #[trigger] self@.dom().contains(p) implies vs.contains(
                p,
            ) by {
                lemma_table_has_row(self.rows@, p);
                let k = choose|k: int|
                    0 <= k < self.rows@.len() && (#[trigger] self.rows@[k]).path@ == p;
                assert(vs[k] == out@[k]@);
            }
            assert forall|p: Seq<char>| vs.contains(p) implies #[trigger] self@.dom().contains(
                p,
            ) by {
                let k = choose|k: int| 0 <= k < vs.len() && vs[k] == p;
                assert(vs[k] == out@[k]@);
                lemma_table_row(self.rows@, k);
            }
        }
        out
    }
}

/// The same chunks once more.
pub fn copy_ids(ids: &Vec<u32>) -> (r: Vec<u32>)
    ensures
        r@ == ids@,
{
    let mut out: Vec<u32> = Vec::new();
    let mut i: usize = 0;
    while i < ids.len()
        invariant
            i <= ids.len(),
            out@ == ids@.take(i as int),
        decreases ids.len() - i,
    {
        out.push(ids[i]);
        proof {
            assert(out@ =~= ids@.take(i + 1));
        }
        i += 1;
    }
    proof {
        assert(ids@.take(ids@.len() as int) =~= ids@);
    }
    out
}

/// Without one of its rows a table holds the rest.
proof fn lemma_without_row(rows: Seq<FileChunks>, i: int)
    requires
        distinct_paths(rows),
        0 <= i < rows.len(),
    ensures
        distinct_paths(rows.remove(i)),
        table_of(rows.remove(i)) == table_of(rows).remove(rows[i].path@),
{
    let less = rows.remove(i);
    let path = rows[i].path@;
    assert forall|a: int, b: int| 0 <= a < b < less.len() implies (#[trigger] less[a]).path@ != (
    #[trigger] less[b]).path@ by {
        let x = if a < i {
            a
        } else {
            a + 1
        };
        let y = if b < i {
            b
        } else {
            b + 1
        };
        assert(less[a] == rows[x] && less[b] == rows[y]);
        assert(rows[x].path@ != rows[y].path@);
    }
    assert forall|p: Seq<char>| #[trigger]
        table_of(less).dom().contains(p) == table_of(rows).remove(path).dom().contains(p) by {
        if table_of(less).dom().contains(p) {
            lemma_table_has_row(less, p);
            let k = choose|k: int| 0 <= k < less.len() && (#[trigger] less[k]).path@ == p;
            let x = if k < i {
                k
            } else {
                k + 1
            };
            assert(less[k] == rows[x]);
            lemma_table_row(rows, x);
            assert(rows[x].path@ != rows[i].path@);
        }
        if table_of(rows).remove(path).dom().contains(p) {
            lemma_table_has_row(rows, p);
            let k = choose|k: int| 0 <= k < rows.len() && (#[trigger] rows[k]).path@ == p;
            let x = if k < i {
                k
            } else {
                k - 1
            };
            assert(less[x] == rows[k]);
            lemma_table_row(less, x);
        }
    }
    assert forall|p: Seq<char>| table_of(less).dom().contains(p) implies #[trigger] table_of(
        less,
    )[p] == table_of(rows)[p] by {
        lemma_table_has_row(less, p);
        let k = choose|k: int| 0 <= k < less.len() && (#[trigger] less[k]).path@ == p;
        let x = if k < i {
            k
        } else {
            k + 1
        };
        assert(less[k] == rows[x]);
        lemma_table_row(rows, x);
        lemma_table_row(less, k);
    }
    assert(table_of(less) =~= table_of(rows).remove(path));
}

/// A table has for each row its chunks under its path, and no other path.
pub proof fn law_rows_of_a_table(rows: Seq<FileChunks>, path: Seq<char>, i: int)
    requires
        distinct_paths(rows),
    ensures
        0 <= i < rows.len() && rows[i].path@ == path ==> table_of(rows).dom().contains(path)
            && table_of(rows)[path] == rows[i].chunk_ids@,
        (forall|k: int| 0 <= k < rows.len() ==> (#[trigger] rows[k]).path@ != path) ==> !table_of(
            rows,
        ).dom().contains(path),
    decreases rows.len(),
{
    if rows.len() > 0 {
        let front = rows.drop_last();
        assert forall|a: int, b: int| 0 <= a < b < front.len() implies (#[trigger] front[a]).path@ != (
        #[trigger] front[b]).path@ by {
            assert(front[a] == rows[a] && front[b] == rows[b]);
        }
        law_rows_of_a_table(front, path, i);
        assert(rows[rows.len() - 1] == rows.last());
        if 0 <= i < front.len() {
            assert(front[i] == rows[i]);
            assert(rows[i].path@ != rows[rows.len() - 1].path@);
        }
        if forall|k: int| 0 <= k < rows.len() ==> (#[trigger] rows[k]).path@ != path {
            assert forall|k: int| 0 <= k < front.len() implies (#[trigger] front[k]).path@ != path by {
                assert(front[k] == rows[k]);
            }
        }
    }
}

} // verus!
