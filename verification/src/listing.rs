//! A directory listing: the raw children the filesystem reported, filtered,
//! classified, and sorted by name; or the distinguished `Denied` state when
//! the directory itself could not be read.
use vstd::prelude::*;
use vstd::seq_lib::to_multiset_insert;
use crate::entry::{Entry, EntryView, classify, entry_wf, spec_classify, views_of};
use crate::order::{lemma_lex_le_total, lemma_lex_le_transitive, lex_le, str_le};
use crate::path::{contains_slash, join_path};

verus! {

/// One child as the filesystem hands it over: the name as text where it was
/// representable, and what kind of object it is.
pub struct RawEntry {
    pub name: Option<String>,
    pub is_symlink: bool,
    pub is_dir: bool,
}

/// The mathematical value of a [`RawEntry`].
pub ghost struct RawEntryView {
    pub name: Option<Seq<char>>,
    pub is_symlink: bool,
    pub is_dir: bool,
}

impl View for RawEntry {
    type V = RawEntryView;

    open spec fn view(&self) -> RawEntryView {
        RawEntryView {
            name: match self.name {
                Some(n) => Some(n@),
                None => None,
            },
            is_symlink: self.is_symlink,
            is_dir: self.is_dir,
        }
    }
}

/// The views of a run of raw entries.
pub open spec fn raw_views(s: Seq<RawEntry>) -> Seq<RawEntryView> {
    s.map_values(|r: RawEntry| r@)
}

/// Whether a raw child is kept in the listing: its name is representable as
/// text, non-empty, and free of path separators.
pub open spec fn raw_kept(r: RawEntryView) -> bool {
    &&& r.name is Some
    &&& r.name.unwrap().len() > 0
    &&& !crate::path::has_slash(r.name.unwrap())
}

/// The entry a kept raw child becomes in a listing of `dir`.
pub open spec fn entry_of_raw(dir: Seq<char>, r: RawEntryView) -> EntryView {
    EntryView {
        name: r.name.unwrap(),
        kind: spec_classify(r.is_symlink, r.is_dir),
        path: crate::path::join(dir, r.name.unwrap()),
    }
}

/// A kept raw child yields a well-formed entry of `dir`.
pub proof fn entry_of_raw_wf(dir: Seq<char>, r: RawEntryView)
    requires
        raw_kept(r),
    ensures
        entry_wf(entry_of_raw(dir, r), dir),
{
}

/// The entries a listing of `dir` keeps out of the raw children `rs`, in the
/// order they were reported: every child with a representable, non-empty,
/// slash-free name, classified.
pub open spec fn entries_of_raws(dir: Seq<char>, rs: Seq<RawEntryView>) -> Seq<EntryView>
    decreases rs.len(),
{
    if rs.len() == 0 {
        Seq::empty()
    } else {
        let rest = entries_of_raws(dir, rs.drop_last());
        if raw_kept(rs.last()) {
            rest.push(entry_of_raw(dir, rs.last()))
        } else {
            rest
        }
    }
}

/// Names never decrease along the listing.
pub open spec fn sorted_names(s: Seq<EntryView>) -> bool {
    forall|i: int, j: int| 0 <= i < j < s.len() ==> lex_le(s[i].name, s[j].name)
}

/// No two entries share a name.
pub open spec fn distinct_names(s: Seq<EntryView>) -> bool {
    forall|i: int, j: int| 0 <= i < j < s.len() ==> s[i].name != s[j].name
}

/// An ordered listing of one directory, or the `Denied` marker when the
/// directory exists but refuses to be read — distinct from an empty listing.
pub enum Listing {
    Entries(Vec<Entry>),
    Denied,
}

impl Listing {
    pub open spec fn is_denied(&self) -> bool {
        match self {
            Listing::Entries(_) => false,
            Listing::Denied => true,
        }
    }

    pub open spec fn spec_entries(&self) -> Seq<EntryView> {
        match self {
            Listing::Entries(v) => views_of(v@),
            Listing::Denied => Seq::empty(),
        }
    }
}

/// Listing determinism: two name-sorted listings made of the same entries,
/// none of which share a name, are identical. Repeated reads of an unchanged
/// directory therefore draw the same pane, in whatever order the filesystem
/// reported the children.
pub proof fn lemma_sorted_distinct_unique(x: Seq<EntryView>, y: Seq<EntryView>)
    requires
        sorted_names(x),
        sorted_names(y),
        distinct_names(x),
        x.to_multiset() == y.to_multiset(),
    ensures
        x == y,
    decreases x.len(),
{
    broadcast use vstd::seq_lib::group_to_multiset_ensures;
    broadcast use vstd::multiset::group_multiset_axioms;

    if x.len() == 0 {
        assert(y.to_multiset().len() == 0);
        assert(x =~= y);
    } else {
        assert(x.to_multiset().contains(x[0]));
        assert(y.to_multiset().contains(y[0]));
        assert(x.contains(y[0]));
        assert(y.contains(x[0]));
        let i = choose|i: int| 0 <= i < x.len() && x[i] == y[0];
        let j = choose|j: int| 0 <= j < y.len() && y[j] == x[0];
        assert(i > 0 ==> lex_le(x[0].name, x[i].name));
        assert(j > 0 ==> lex_le(y[0].name, y[j].name));
        crate::order::lemma_lex_le_reflexive(x[0].name);
        crate::order::lemma_lex_le_antisymmetric(x[0].name, x[i].name);
        assert(i == 0) by {
            if i > 0 {
                assert(x[0].name != x[i].name);
            }
        }
        assert(x[0] == y[0]);
        assert(x.drop_first().to_multiset() =~= x.to_multiset().remove(x[0])) by {
            assert(x.drop_first() =~= x.remove(0));
        }
        assert(y.drop_first().to_multiset() =~= y.to_multiset().remove(y[0])) by {
            assert(y.drop_first() =~= y.remove(0));
        }
        assert(sorted_names(x.drop_first()) && distinct_names(x.drop_first())) by {
            assert(forall|a: int|
                0 <= a < x.drop_first().len() ==> x.drop_first()[a] == x[a + 1]);
        }
        assert(sorted_names(y.drop_first())) by {
            assert(forall|a: int|
                0 <= a < y.drop_first().len() ==> y.drop_first()[a] == y[a + 1]);
        }
        lemma_sorted_distinct_unique(x.drop_first(), y.drop_first());
        assert forall|k: int| 0 <= k < x.len() implies x[k] == y[k] by {
            if k > 0 {
                assert(x[k] == x.drop_first()[k - 1]);
                assert(y[k] == y.drop_first()[k - 1]);
            }
        }
        assert(x =~= y);
    }
}

/// Removing one raw child removes exactly its entry (when it is kept) from
/// the kept entries, as multisets.
proof fn lemma_entries_of_raws_remove(dir: Seq<char>, s: Seq<RawEntryView>, k: int)
    requires
        0 <= k < s.len(),
    ensures
        raw_kept(s[k]) ==> entries_of_raws(dir, s).to_multiset() == entries_of_raws(
            dir,
            s.remove(k),
        ).to_multiset().insert(entry_of_raw(dir, s[k])),
        !raw_kept(s[k]) ==> entries_of_raws(dir, s).to_multiset() == entries_of_raws(
            dir,
            s.remove(k),
        ).to_multiset(),
    decreases s.len(),
{
    broadcast use vstd::seq_lib::group_to_multiset_ensures;
    broadcast use vstd::multiset::group_multiset_axioms;

    if k == s.len() - 1 {
        assert(s.remove(k) =~= s.drop_last());
    } else {
        let t = s.remove(k);
        assert(t.drop_last() =~= s.drop_last().remove(k));
        assert(t.last() == s.last());
        assert(s.drop_last()[k] == s[k]);
        lemma_entries_of_raws_remove(dir, s.drop_last(), k);
        let pre = entries_of_raws(dir, s.drop_last());
        let pre_removed = entries_of_raws(dir, s.drop_last().remove(k));
        if raw_kept(s.last()) {
            let last_e = entry_of_raw(dir, s.last());
            assert(entries_of_raws(dir, s).to_multiset() =~= pre.to_multiset().insert(last_e));
            assert(entries_of_raws(dir, t).to_multiset() =~= pre_removed.to_multiset().insert(
                last_e,
            ));
            if raw_kept(s[k]) {
                let ke = entry_of_raw(dir, s[k]);
                assert(pre_removed.to_multiset().insert(last_e).insert(ke)
                    =~= pre_removed.to_multiset().insert(ke).insert(last_e));
            }
        } else {
            assert(entries_of_raws(dir, s).to_multiset() == pre.to_multiset());
            assert(entries_of_raws(dir, t).to_multiset() == pre_removed.to_multiset());
        }
    }
}

/// The kept entries depend only on which raw children were reported, never on
/// the order the filesystem walked them in, as multisets.
pub proof fn lemma_entries_of_raws_permutation(
    dir: Seq<char>,
    a: Seq<RawEntryView>,
    b: Seq<RawEntryView>,
)
    requires
        a.to_multiset() == b.to_multiset(),
    ensures
        entries_of_raws(dir, a).to_multiset() == entries_of_raws(dir, b).to_multiset(),
    decreases a.len(),
{
    broadcast use vstd::seq_lib::group_to_multiset_ensures;
    broadcast use vstd::multiset::group_multiset_axioms;

    if a.len() == 0 {
        assert(b.to_multiset().len() == 0);
        assert(b =~= Seq::<RawEntryView>::empty());
    } else {
        let x = a.last();
        assert(a.contains(x));
        assert(b.to_multiset().contains(x));
        assert(b.contains(x));
        let k = choose|k: int| 0 <= k < b.len() && b[k] == x;
        assert(a.drop_last() =~= a.remove(a.len() - 1));
        assert(a.drop_last().to_multiset() =~= a.to_multiset().remove(x));
        assert(b.remove(k).to_multiset() =~= b.to_multiset().remove(x));
        lemma_entries_of_raws_permutation(dir, a.drop_last(), b.remove(k));
        lemma_entries_of_raws_remove(dir, b, k);
    }
}

/// Listing determinism, end to end: two reads of an unchanged directory hand
/// over the same raw children in some order; once each read is filtered,
/// classified and name-sorted, and no two kept entries share a name, the two
/// listings are identical.
pub proof fn lemma_listing_deterministic(
    dir: Seq<char>,
    a: Seq<RawEntryView>,
    b: Seq<RawEntryView>,
    x: Seq<EntryView>,
    y: Seq<EntryView>,
)
    requires
        a.to_multiset() == b.to_multiset(),
        sorted_names(x),
        sorted_names(y),
        distinct_names(x),
        x.to_multiset() == entries_of_raws(dir, a).to_multiset(),
        y.to_multiset() == entries_of_raws(dir, b).to_multiset(),
    ensures
        x == y,
{
    lemma_entries_of_raws_permutation(dir, a, b);
    lemma_sorted_distinct_unique(x, y);
}

/// Inserts `e` at its place in a name-sorted run of entries.
fn insert_sorted(v: &mut Vec<Entry>, e: Entry)
    requires
        sorted_names(views_of(old(v)@)),
    ensures
        sorted_names(views_of(final(v)@)),
        views_of(final(v)@).to_multiset() == views_of(old(v)@).to_multiset().insert(e@),
        exists|p: int|
            0 <= p <= old(v)@.len() && views_of(final(v)@) == #[trigger] views_of(
                old(v)@,
            ).insert(p, e@),
{
    let ghost vs = views_of(v@);
    let n = v.len();
    let mut pos: usize = 0;
    loop
        invariant
            pos <= n,
            n == v@.len(),
            vs == views_of(v@),
            sorted_names(vs),
            forall|j: int| 0 <= j < pos ==> lex_le(vs[j].name, e@.name),
        ensures
            pos <= n,
            n == v@.len(),
            vs == views_of(v@),
            sorted_names(vs),
            forall|j: int| 0 <= j < pos ==> lex_le(vs[j].name, e@.name),
            pos < n ==> lex_le(e@.name, vs[pos as int].name),
        decreases n - pos,
    {
        if pos >= n {
            break;
        }
        if !str_le(v[pos].name.as_str(), e.name.as_str()) {
            proof {
                lemma_lex_le_total(vs[pos as int].name, e@.name);
            }
            break;
        }
        pos = pos + 1;
    }
    let ghost p = pos as int;
    v.insert(pos, e);
    proof {
        let nvs = views_of(v@);
        assert(nvs =~= vs.insert(p, e@));
        assert forall|i: int, j: int| 0 <= i < j < nvs.len() implies lex_le(
            nvs[i].name,
            nvs[j].name,
        ) by {
            if i < p && j == p {
            } else if i == p && j > p {
                if j - 1 > p {
                    lemma_lex_le_transitive(e@.name, vs[p].name, vs[j - 1].name);
                }
            }
        }
        to_multiset_insert(vs, p, e@);
    }
}

/// Builds the listing of `dir` from the raw children the filesystem handed
/// over: children with a representable, non-empty, slash-free name are kept,
/// classified, given their absolute path below `dir`, and sorted by name.
pub fn build_listing(dir: &str, raws: &Vec<RawEntry>) -> (out: Vec<Entry>)
    ensures
        sorted_names(views_of(out@)),
        views_of(out@).to_multiset() == entries_of_raws(dir@, raw_views(raws@)).to_multiset(),
        forall|k: int| 0 <= k < out@.len() ==> entry_wf(#[trigger] views_of(out@)[k], dir@),
{
    let mut out: Vec<Entry> = Vec::new();
    let n = raws.len();
    let mut j: usize = 0;
    proof {
        assert(raw_views(raws@).take(0) =~= Seq::<RawEntryView>::empty());
        assert(views_of(out@) =~= Seq::<EntryView>::empty());
    }
    while j < n
        invariant
            j <= n,
            n == raws@.len(),
            sorted_names(views_of(out@)),
            views_of(out@).to_multiset() == entries_of_raws(
                dir@,
                raw_views(raws@).take(j as int),
            ).to_multiset(),
            forall|k: int| 0 <= k < out@.len() ==> entry_wf(#[trigger] views_of(out@)[k], dir@),
        decreases n - j,
    {
        let ghost pre = raw_views(raws@).take(j as int);
        let ghost post = raw_views(raws@).take(j + 1);
        proof {
            assert(post.drop_last() =~= pre);
            assert(post.last() == raws@[j as int]@);
        }
        let raw = &raws[j];
        match &raw.name {
            Some(nm) => {
                if nm.unicode_len() > 0 && !contains_slash(nm.as_str()) {
                    let kind = classify(raw.is_symlink, raw.is_dir);
                    let path = join_path(dir, nm.as_str());
                    let e = Entry { name: nm.clone(), kind, path };
                    proof {
                        assert(raw_kept(raws@[j as int]@));
                        assert(e@ == entry_of_raw(dir@, raws@[j as int]@));
                        entry_of_raw_wf(dir@, raws@[j as int]@);
                        vstd::seq_lib::to_multiset_build(views_of(out@), e@);
                    }
                    let ghost prev = views_of(out@);
                    insert_sorted(&mut out, e);
                    proof {
                        assert(entries_of_raws(dir@, post).to_multiset() =~= entries_of_raws(
                            dir@,
                            pre,
                        ).to_multiset().insert(e@)) by {
                            vstd::seq_lib::to_multiset_build(
                                entries_of_raws(dir@, pre),
                                entry_of_raw(dir@, raws@[j as int]@),
                            );
                        }
                        let q = choose|q: int|
                            0 <= q <= prev.len() && views_of(out@) == #[trigger] prev.insert(
                                q,
                                e@,
                            );
                        prev.insert_ensures(q, e@);
                        assert forall|k: int| 0 <= k < out@.len() implies entry_wf(
                            #[trigger] views_of(out@)[k],
                            dir@,
                        ) by {
                            if k == q {
                                assert(views_of(out@)[k] == e@);
                            } else if k < q {
                                assert(views_of(out@)[k] == prev[k]);
                            } else {
                                assert(views_of(out@)[k] == prev[k - 1]);
                            }
                        }
                    }
                } else {
                    proof {
                        assert(!raw_kept(raws@[j as int]@));
                    }
                }
            },
            None => {
                proof {
                    assert(!raw_kept(raws@[j as int]@));
                }
            },
        }
        j = j + 1;
    }
    proof {
        assert(raw_views(raws@).take(n as int) =~= raw_views(raws@));
    }
    out
}

} // verus!
