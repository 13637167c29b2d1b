//! Many TextGrids in one table: the flat forms of the files one after the
//! other, each row tagged with the place of its file in the list.

use vstd::prelude::*;
use crate::columns::{texts, Vectors};

verus! {

/// The five columns and, as the sixth, the index of the file that each row came from.
pub type BatchVectors = (Vec<u64>, Vec<u64>, Vec<String>, Vec<String>, Vec<bool>, Vec<u32>);

/// The model of five columns: each as a sequence of plain values.
pub struct ColumnsView {
    pub tmins: Seq<u64>,
    pub tmaxs: Seq<u64>,
    pub labels: Seq<Seq<char>>,
    pub tier_names: Seq<Seq<char>>,
    pub is_interval: Seq<bool>,
}

/// The model of the six columns of a combined table.
pub struct TableView {
    pub tmins: Seq<u64>,
    pub tmaxs: Seq<u64>,
    pub labels: Seq<Seq<char>>,
    pub tier_names: Seq<Seq<char>>,
    pub is_interval: Seq<bool>,
    pub file_id: Seq<u32>,
}

/// The model of a tuple of columns.
pub open spec fn columns_view(v: Vectors) -> ColumnsView {
    ColumnsView {
        tmins: v.0@,
        tmaxs: v.1@,
        labels: texts(v.2@),
        tier_names: texts(v.3@),
        is_interval: v.4@,
    }
}

/// The model of a combined table.
pub open spec fn table_view(b: BatchVectors) -> TableView {
    TableView {
        tmins: b.0@,
        tmaxs: b.1@,
        labels: texts(b.2@),
        tier_names: texts(b.3@),
        is_interval: b.4@,
        file_id: b.5@,
    }
}

/// The columns of the models of many tuples.
pub open spec fn columns_views(per_file: Seq<Vectors>) -> Seq<ColumnsView> {
    Seq::new(per_file.len(), |i: int| columns_view(per_file[i]))
}

/// The table that the files' columns make when put one after the other: each
/// column is the files' columns joined in the order of the files, and the
/// sixth gives, for each tier name of file `i`, the number `i`.
pub open spec fn combined(parts: Seq<ColumnsView>) -> TableView
    decreases parts.len(),
{
    if parts.len() == 0 {
        TableView {
            tmins: Seq::empty(),
            tmaxs: Seq::empty(),
            labels: Seq::empty(),
            tier_names: Seq::empty(),
            is_interval: Seq::empty(),
            file_id: Seq::empty(),
        }
    } else {
        let head = combined(parts.drop_last());
        let last = parts.last();
        TableView {
            tmins: head.tmins + last.tmins,
            tmaxs: head.tmaxs + last.tmaxs,
            labels: head.labels + last.labels,
            tier_names: head.tier_names + last.tier_names,
            is_interval: head.is_interval + last.is_interval,
            file_id: head.file_id + Seq::new(
                last.tier_names.len(),
                |j: int| (parts.len() - 1) as u32,
            ),
        }
    }
}

/// The most files that one table can number.
pub const MAX_FILES: usize = 0xffff_ffff;

fn extend_times(out: &mut Vec<u64>, src: &Vec<u64>)
    ensures
        final(out)@ == old(out)@ + src@,
{
    let n: usize = src.len();
    let mut i: usize = 0;
    while i < n
        invariant
            n == src@.len(),
            i <= n,
            out@ == old(out)@ + src@.take(i as int),
        decreases n - i,
    {
        out.push(src[i]);
        assert(old(out)@ + src@.take(i + 1) =~= (old(out)@ + src@.take(i as int)).push(
            src@[i as int],
        ));
        i += 1;
    }
    assert(src@.take(n as int) =~= src@);
}

fn extend_kinds(out: &mut Vec<bool>, src: &Vec<bool>)
    ensures
        final(out)@ == old(out)@ + src@,
{
    let n: usize = src.len();
    let mut i: usize = 0;
    while i < n
        invariant
            n == src@.len(),
            i <= n,
            out@ == old(out)@ + src@.take(i as int),
        decreases n - i,
    {
        out.push(src[i]);
        assert(old(out)@ + src@.take(i + 1) =~= (old(out)@ + src@.take(i as int)).push(
            src@[i as int],
        ));
        i += 1;
    }
    assert(src@.take(n as int) =~= src@);
}

fn extend_texts(out: &mut Vec<String>, src: &Vec<String>)
    ensures
        texts(final(out)@) == texts(old(out)@) + texts(src@),
{
    let n: usize = src.len();
    let mut i: usize = 0;
    while i < n
        invariant
            n == src@.len(),
            i <= n,
            texts(out@) == texts(old(out)@) + texts(src@).take(i as int),
        decreases n - i,
    {
        let ghost before = out@;
        out.push(src[i].clone());
        assert(texts(out@) =~= texts(before).push(src@[i as int]@));
        assert(texts(old(out)@) + texts(src@).take(i + 1) =~= (texts(old(out)@) + texts(src@).take(
            i as int,
        )).push(src@[i as int]@));
        i += 1;
    }
    assert(texts(src@).take(n as int) =~= texts(src@));
}

fn extend_ids(out: &mut Vec<u32>, id: u32, count: usize)
    ensures
        final(out)@ == old(out)@ + Seq::new(count as nat, |j: int| id),
{
    let mut i: usize = 0;
    while i < count
        invariant
            i <= count,
            out@ == old(out)@ + Seq::new(i as nat, |j: int| id),
        decreases count - i,
    {
        out.push(id);
        assert(old(out)@ + Seq::new((i + 1) as nat, |j: int| id) =~= (old(out)@ + Seq::new(
            i as nat,
            |j: int| id,
        )).push(id));
        i += 1;
    }
}

/// Puts the columns of many files one after the other and numbers each row
/// with the place of its file in the list, counted from zero. The sixth
/// column gets one number for each tier name of a file.
pub fn textgrids2vectors(per_file: &Vec<Vectors>) -> (b: BatchVectors)
    requires
        per_file@.len() <= MAX_FILES + 1,
    ensures
        table_view(b) == combined(columns_views(per_file@)),
{
    let ghost parts = columns_views(per_file@);
    let mut tmins: Vec<u64> = Vec::new();
    let mut tmaxs: Vec<u64> = Vec::new();
    let mut labels: Vec<String> = Vec::new();
    let mut tier_names: Vec<String> = Vec::new();
    let mut kinds: Vec<bool> = Vec::new();
    let mut ids: Vec<u32> = Vec::new();
    let n: usize = per_file.len();
    let mut f: usize = 0;
    proof {
        assert(texts(labels@) =~= Seq::<Seq<char>>::empty());
        assert(texts(tier_names@) =~= Seq::<Seq<char>>::empty());
        assert(parts.take(0) =~= Seq::<ColumnsView>::empty());
    }
    while f < n
        invariant
            n == per_file@.len(),
            n <= MAX_FILES + 1,
            f <= n,
            parts == columns_views(per_file@),
            (TableView {
                tmins: tmins@,
                tmaxs: tmaxs@,
                labels: texts(labels@),
                tier_names: texts(tier_names@),
                is_interval: kinds@,
                file_id: ids@,
            }) == combined(parts.take(f as int)),
        decreases n - f,
    {
        let v = &per_file[f];
        proof {
            assert(parts.take(f + 1).drop_last() =~= parts.take(f as int));
            assert(parts.take(f + 1).last() == columns_view(*v));
        }
        extend_times(&mut tmins, &v.0);
        extend_times(&mut tmaxs, &v.1);
        extend_texts(&mut labels, &v.2);
        extend_texts(&mut tier_names, &v.3);
        extend_kinds(&mut kinds, &v.4);
        extend_ids(&mut ids, f as u32, v.3.len());
        proof {
            assert(Seq::new(v.3@.len(), |j: int| f as u32) =~= Seq::new(
                texts(v.3@).len(),
                |j: int| (parts.take(f + 1).len() - 1) as u32,
            ));
        }
        f += 1;
    }
    proof {
        assert(parts.take(n as int) =~= parts);
    }
    (tmins, tmaxs, labels, tier_names, kinds, ids)
}

} // verus!
