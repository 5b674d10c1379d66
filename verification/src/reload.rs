//! Re-indexing after a file watch event: the files parsed from disk, and
//! the open buffers that take precedence over them.

use vstd::prelude::*;
use crate::navigation::names;
use crate::text::same_str;

verus! {

/// No two entries of `s` have the same key.
pub open spec fn distinct_keys<D>(s: Seq<(String, D)>) -> bool {
    forall|i: int, j: int| 0 <= i < j < s.len() ==> (#[trigger] s[i]).0@ != (#[trigger] s[j]).0@
}

/// The map that the entries of `s` make, a later entry over an earlier
/// one of the same key.
pub open spec fn keyed<D>(s: Seq<(String, D)>) -> Map<Seq<char>, D>
    decreases s.len(),
{
    if s.len() == 0 {
        Map::empty()
    } else {
        keyed(s.drop_last()).insert(s.last().0@, s.last().1)
    }
}

/// `index` with the buffers of `buffers` whose parse was complete (the
/// third component) laid over it, in order, leaving out the buffers of
/// deleted files.
pub open spec fn lay_complete<D>(
    index: Map<Seq<char>, D>,
    buffers: Seq<(String, D, bool)>,
    deleted: Seq<String>,
) -> Map<Seq<char>, D>
    decreases buffers.len(),
{
    if buffers.len() == 0 {
        index
    } else {
        let b = buffers.last();
        let rest = lay_complete(index, buffers.drop_last(), deleted);
        if b.2 && !names(deleted, b.0@) {
            rest.insert(b.0@, b.1)
        } else {
            rest
        }
    }
}

/// The buffers of `buffers` whose parse was partial, by key, a later over
/// an earlier one, leaving out the buffers of deleted files.
pub open spec fn partial_buffers<D>(buffers: Seq<(String, D, bool)>, deleted: Seq<String>) -> Map<
    Seq<char>,
    D,
>
    decreases buffers.len(),
{
    if buffers.len() == 0 {
        Map::empty()
    } else {
        let b = buffers.last();
        let rest = partial_buffers(buffers.drop_last(), deleted);
        if !b.2 && !names(deleted, b.0@) {
            rest.insert(b.0@, b.1)
        } else {
            rest
        }
    }
}

proof fn lemma_keyed_update<D>(s: Seq<(String, D)>, i: int, x: (String, D))
    requires
        distinct_keys(s),
        0 <= i < s.len(),
        s[i].0@ == x.0@,
    ensures
        keyed(s.update(i, x)) == keyed(s).insert(x.0@, x.1),
    decreases s.len(),
{
    let t = s.update(i, x);
    if i == s.len() - 1 {
        assert(t.drop_last() =~= s.drop_last());
        assert(keyed(t) =~= keyed(s).insert(x.0@, x.1));
    } else {
        assert(t.drop_last() =~= s.drop_last().update(i, x));
        assert(distinct_keys(s.drop_last()));
        lemma_keyed_update(s.drop_last(), i, x);
        assert(s[i].0@ != s.last().0@);
        assert(keyed(t) =~= keyed(s).insert(x.0@, x.1));
    }
}

/// Put `(k, d)` into `out`, over an entry of the same key if there is one.
fn upsert<D>(out: &mut Vec<(String, D)>, k: String, d: D)
    requires
        distinct_keys(old(out)@),
    ensures
        distinct_keys(final(out)@),
        keyed(final(out)@) == keyed(old(out)@).insert(k@, d),
{
    let mut i: usize = 0;
    while i < out.len() && !same_str(out[i].0.as_str(), k.as_str())
        invariant
            0 <= i <= out@.len(),
            forall|j: int| 0 <= j < i ==> (#[trigger] out@[j]).0@ != k@,
        decreases out@.len() - i,
    {
        i = i + 1;
    }
    let ghost before = out@;
    if i < out.len() {
        let x = (k, d);
        proof {
            lemma_keyed_update(before, i as int, x);
        }
        out.set(i, x);
        proof {
            assert forall|a: int, b: int| 0 <= a < b < out@.len() implies (#[trigger] out@[a]).0@
                != (#[trigger] out@[b]).0@ by {
                assert(before[a].0@ != before[b].0@);
            }
        }
    } else {
        out.push((k, d));
        proof {
            assert(out@.drop_last() =~= before);
            assert forall|a: int, b: int| 0 <= a < b < out@.len() implies (#[trigger] out@[a]).0@
                != (#[trigger] out@[b]).0@ by {
                if b < before.len() {
                    assert(before[a].0@ != before[b].0@);
                }
            }
        }
    }
}

/// `entries` without those of key `k`.
fn without_key<D>(entries: Vec<(String, D)>, k: &str) -> (r: Vec<(String, D)>)
    ensures
        keyed(r@) == keyed(entries@).remove(k@),
{
    let ghost all = entries@;
    let n: usize = entries.len();
    let mut entries = entries;
    let mut out: Vec<(String, D)> = Vec::new();
    let mut seen: usize = 0;
    while entries.len() > 0
        invariant
            seen + entries@.len() == all.len(),
            all.len() == n,
            entries@ == all.skip(seen as int),
            keyed(out@) == keyed(all.take(seen as int)).remove(k@),
        decreases entries@.len(),
    {
        let (key, d) = entries.remove(0);
        let ghost prev = out@;
        proof {
            assert(all.take(seen + 1).drop_last() =~= all.take(seen as int));
            assert(all.take(seen + 1).last() == all[seen as int]);
        }
        if !same_str(key.as_str(), k) {
            out.push((key, d));
            proof {
                assert(out@.drop_last() =~= prev);
            }
        }
        proof {
            assert(keyed(out@) =~= keyed(all.take(seen + 1)).remove(k@));
        }
        seen = seen + 1;
        proof {
            assert(entries@ =~= all.skip(seen as int));
        }
    }
    proof {
        assert(all.take(all.len() as int) =~= all);
    }
    out
}

/// Where the parse of one file goes: a complete parse into the index and
/// out of the partial parses, a partial one the other way round, and no
/// parse (the file is no spec document, or could not be read) out of both.
pub fn place_parse<D>(
    index: Vec<(String, D)>,
    partial: Vec<(String, D)>,
    key: String,
    parse: Option<(D, bool)>,
) -> (r: (Vec<(String, D)>, Vec<(String, D)>))
    ensures
        match parse {
            Some((d, true)) => keyed(r.0@) == keyed(index@).insert(key@, d) && keyed(r.1@) == keyed(
                partial@,
            ).remove(key@),
            Some((d, false)) => keyed(r.0@) == keyed(index@).remove(key@) && keyed(r.1@) == keyed(
                partial@,
            ).insert(key@, d),
            None => keyed(r.0@) == keyed(index@).remove(key@) && keyed(r.1@) == keyed(partial@).remove(
                key@,
            ),
        },
{
    let mut index = without_key(index, key.as_str());
    let mut partial = without_key(partial, key.as_str());
    match parse {
        Some((d, complete)) => {
            let ghost before = if complete { index@ } else { partial@ };
            let x = (key, d);
            if complete {
                index.push(x);
                proof {
                    assert(index@.drop_last() =~= before);
                    assert(keyed(index@) =~= keyed(before).remove(x.0@).insert(x.0@, x.1));
                }
            } else {
                partial.push(x);
                proof {
                    assert(partial@.drop_last() =~= before);
                    assert(keyed(partial@) =~= keyed(before).remove(x.0@).insert(x.0@, x.1));
                }
            }
        },
        None => {},
    }
    (index, partial)
}

/// Whether `key` is one of `deleted`.
fn is_deleted(deleted: &[String], key: &str) -> (r: bool)
    ensures
        r == names(deleted@, key@),
{
    let mut m: usize = 0;
    while m < deleted.len()
        invariant
            0 <= m <= deleted@.len(),
            forall|j: int| 0 <= j < m ==> (#[trigger] deleted@[j])@ != key@,
        decreases deleted@.len() - m,
    {
        if same_str(deleted[m].as_str(), key) {
            return true;
        }
        m = m + 1;
    }
    false
}

/// The index after a file watch event.  `disk` holds the files parsed from
/// disk by key; `buffers` the open buffers by key, each with its parse and
/// whether that parse was complete; `deleted` the keys of the files the
/// event deleted, whose buffers go.  A buffer with a complete parse stands
/// in the index over the file on disk; one with a partial parse goes to the
/// second table, of partial parses.
pub fn merge_watch_reload<D>(
    disk: Vec<(String, D)>,
    buffers: Vec<(String, D, bool)>,
    deleted: &[String],
) -> (r: (Vec<(String, D)>, Vec<(String, D)>))
    ensures
        distinct_keys(r.0@),
        distinct_keys(r.1@),
        keyed(r.0@) == lay_complete(keyed(disk@), buffers@, deleted@),
        keyed(r.1@) == partial_buffers(buffers@, deleted@),
{
    let ghost disk0 = disk@;
    let ghost buffers0 = buffers@;
    let n_disk: usize = disk.len();
    let n_buffers: usize = buffers.len();
    let mut disk = disk;
    let mut buffers = buffers;
    let mut index: Vec<(String, D)> = Vec::new();
    let mut taken: usize = 0;
    while disk.len() > 0
        invariant
            taken + disk@.len() == disk0.len(),
            disk0.len() == n_disk,
            disk@ == disk0.skip(taken as int),
            distinct_keys(index@),
            keyed(index@) == keyed(disk0.take(taken as int)),
        decreases disk@.len(),
    {
        let (k, d) = disk.remove(0);
        proof {
            assert(disk0.take(taken + 1).drop_last() =~= disk0.take(taken as int));
            assert(disk0.take(taken + 1).last() == disk0[taken as int]);
        }
        upsert(&mut index, k, d);
        taken = taken + 1;
        proof {
            assert(disk@ =~= disk0.skip(taken as int));
        }
    }
    proof {
        assert(disk0.take(disk0.len() as int) =~= disk0);
    }
    let mut partial: Vec<(String, D)> = Vec::new();
    let mut seen: usize = 0;
    while buffers.len() > 0
        invariant
            seen + buffers@.len() == buffers0.len(),
            buffers0.len() == n_buffers,
            buffers@ == buffers0.skip(seen as int),
            distinct_keys(index@),
            distinct_keys(partial@),
            keyed(index@) == lay_complete(keyed(disk0), buffers0.take(seen as int), deleted@),
            keyed(partial@) == partial_buffers(buffers0.take(seen as int), deleted@),
        decreases buffers@.len(),
    {
        let (k, d, complete) = buffers.remove(0);
        proof {
            assert(buffers0.take(seen + 1).drop_last() =~= buffers0.take(seen as int));
            assert(buffers0.take(seen + 1).last() == buffers0[seen as int]);
        }
        if !is_deleted(deleted, k.as_str()) {
            if complete {
                upsert(&mut index, k, d);
            } else {
                upsert(&mut partial, k, d);
            }
        }
        seen = seen + 1;
        proof {
            assert(buffers@ =~= buffers0.skip(seen as int));
        }
    }
    proof {
        assert(buffers0.take(buffers0.len() as int) =~= buffers0);
    }
    (index, partial)
}

} // verus!
