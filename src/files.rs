use std::collections::HashMap;
use vstd::prelude::*;

use crate::net::get_collection_details::{Child, Detail as CollectionDetail};
use crate::net::get_published_file_details::Detail;
use crate::net::FileId;

verus! {

broadcast use vstd::std_specs::hash::group_hash_axioms;

// ---------------------------------------------------------------------------
// Order of a collection's children
// ---------------------------------------------------------------------------

/// `s` with `c` placed after every entry whose sort order is not greater
/// than that of `c`, and before the others.
pub open spec fn insert_by_order(s: Seq<Child>, c: Child) -> Seq<Child>
    decreases s.len(),
{
    if s.len() == 0 {
        seq![c]
    } else if s.last().sortorder <= c.sortorder {
        s.push(c)
    } else {
        insert_by_order(s.drop_last(), c).push(s.last())
    }
}

/// The children in ascending sort order; entries with equal sort order keep
/// the order in which they came.
pub open spec fn sort_by_order(s: Seq<Child>) -> Seq<Child>
    decreases s.len(),
{
    if s.len() == 0 {
        s
    } else {
        insert_by_order(sort_by_order(s.drop_last()), s.last())
    }
}

pub open spec fn sorted_by_order(s: Seq<Child>) -> bool {
    forall|i: int, j: int| 0 <= i < j < s.len() ==> s[i].sortorder <= s[j].sortorder
}

/// The identifiers of the mods among the children, in their order; nested
/// collections are left out.
pub open spec fn leaf_ids(s: Seq<Child>) -> Seq<FileId>
    decreases s.len(),
{
    if s.len() == 0 {
        seq![]
    } else if s.last().filetype == 0 {
        leaf_ids(s.drop_last()).push(s.last().file_id)
    } else {
        leaf_ids(s.drop_last())
    }
}

/// The children that a collection resolves to: its mods, by sort order.
pub open spec fn resolved_children(s: Seq<Child>) -> Seq<FileId> {
    leaf_ids(sort_by_order(s))
}

proof fn lemma_insert_at(s: Seq<Child>, c: Child, p: int)
    requires
        0 <= p <= s.len(),
        forall|j: int| p <= j < s.len() ==> s[j].sortorder > c.sortorder,
        p == 0 || s[p - 1].sortorder <= c.sortorder,
    ensures
        insert_by_order(s, c) == s.insert(p, c),
    decreases s.len(),
{
    if s.len() == 0 {
        assert(s.insert(p, c) =~= seq![c]);
    } else if s.last().sortorder <= c.sortorder {
        assert(p == s.len());
        assert(s.insert(p, c) =~= s.push(c));
    } else {
        lemma_insert_at(s.drop_last(), c, p);
        assert(s.drop_last().insert(p, c).push(s.last()) =~= s.insert(p, c));
    }
}

proof fn lemma_insert_sorted(s: Seq<Child>, c: Child)
    requires
        sorted_by_order(s),
    ensures
        sorted_by_order(insert_by_order(s, c)),
        insert_by_order(s, c).to_multiset() == s.to_multiset().insert(c),
    decreases s.len(),
{
    broadcast use vstd::seq_lib::group_to_multiset_ensures;

    if s.len() == 0 {
        assert(seq![c] =~= Seq::<Child>::empty().push(c));
    } else if s.last().sortorder <= c.sortorder {
    } else {
        let t = s.drop_last();
        assert(s =~= t.push(s.last()));
        lemma_insert_sorted(t, c);
        let u = insert_by_order(t, c);
        assert forall|k: int| 0 <= k < u.len() implies u[k].sortorder <= s.last().sortorder by {
            assert(u.to_multiset().count(u[k]) > 0);
            assert(u[k] == c || t.to_multiset().count(u[k]) > 0);
            if u[k] != c {
                assert(t.contains(u[k]));
                let m = choose|m: int| 0 <= m < t.len() && t[m] == u[k];
                assert(s[m] == u[k]);
            }
        }
        assert(s.to_multiset() == t.to_multiset().insert(s.last()));
        assert(u.push(s.last()).to_multiset() =~= s.to_multiset().insert(c));
    }
}

/// The sorted children are in ascending sort order and hold the same entries
/// as the children that came in.
pub proof fn lemma_sort_by_order(s: Seq<Child>)
    ensures
        sorted_by_order(sort_by_order(s)),
        sort_by_order(s).to_multiset() == s.to_multiset(),
    decreases s.len(),
{
    broadcast use vstd::seq_lib::group_to_multiset_ensures;

    if s.len() > 0 {
        lemma_sort_by_order(s.drop_last());
        lemma_insert_sorted(sort_by_order(s.drop_last()), s.last());
        assert(s =~= s.drop_last().push(s.last()));
    }
}

/// The children in ascending sort order, equal sort orders kept as they came.
pub fn sort_children(v: &Vec<Child>) -> (r: Vec<Child>)
    ensures
        r@ == sort_by_order(v@),
{
    let mut r: Vec<Child> = Vec::new();
    let n = v.len();
    for i in 0..n
        invariant
            n == v.len(),
            r@ == sort_by_order(v@.take(i as int)),
    {
        let c = v[i];
        proof {
            lemma_sort_by_order(v@.take(i as int));
        }
        let mut p: usize = r.len();
        while p > 0 && r[p - 1].sortorder > c.sortorder
            invariant
                p <= r.len(),
                forall|j: int| p <= j < r.len() ==> r[j].sortorder > c.sortorder,
            decreases p,
        {
            p = p - 1;
        }
        proof {
            lemma_insert_at(r@, c, p as int);
            assert(v@.take(i + 1).drop_last() =~= v@.take(i as int));
        }
        r.insert(p, c);
    }
    proof {
        assert(v@.take(n as int) =~= v@);
    }
    r
}

/// The identifiers of the mods among the children, in their order.
pub fn leaf_children(v: &Vec<Child>) -> (r: Vec<FileId>)
    ensures
        r@ == leaf_ids(v@),
{
    let mut r: Vec<FileId> = Vec::new();
    let n = v.len();
    for i in 0..n
        invariant
            n == v.len(),
            r@ == leaf_ids(v@.take(i as int)),
    {
        proof {
            assert(v@.take(i + 1).drop_last() =~= v@.take(i as int));
        }
        if v[i].filetype == 0 {
            r.push(v[i].file_id);
        }
    }
    proof {
        assert(v@.take(n as int) =~= v@);
    }
    r
}

// ---------------------------------------------------------------------------
// The set of identifiers to look up
// ---------------------------------------------------------------------------

/// The children that the collection lookup gives for `id`, when it is a
/// collection.
pub open spec fn children_in(cols: Map<FileId, CollectionDetail>, id: FileId) -> Option<Seq<FileId>> {
    if cols.contains_key(id) && cols[id].children is Some {
        Some(resolved_children(cols[id].children->0@))
    } else {
        None
    }
}

/// Each seed followed by its resolved children, if it is a collection.
pub open spec fn expand(seeds: Seq<FileId>, cols: Map<FileId, CollectionDetail>) -> Seq<FileId>
    decreases seeds.len(),
{
    if seeds.len() == 0 {
        seq![]
    } else {
        let id = seeds.last();
        expand(seeds.drop_last(), cols) + seq![id] + match children_in(cols, id) {
            Some(c) => c,
            None => seq![],
        }
    }
}

/// The first occurrence of each identifier, in order.
pub open spec fn dedup(s: Seq<FileId>) -> Seq<FileId>
    decreases s.len(),
{
    if s.len() == 0 {
        s
    } else if dedup(s.drop_last()).contains(s.last()) {
        dedup(s.drop_last())
    } else {
        dedup(s.drop_last()).push(s.last())
    }
}

pub open spec fn no_duplicates(s: Seq<FileId>) -> bool {
    forall|i: int, j: int| 0 <= i < j < s.len() ==> s[i] != s[j]
}

/// What `dedup` keeps holds no identifier twice and exactly the identifiers
/// that came in.
pub proof fn lemma_dedup(s: Seq<FileId>)
    ensures
        no_duplicates(dedup(s)),
        forall|x: FileId| dedup(s).contains(x) <==> s.contains(x),
    decreases s.len(),
{
    if s.len() > 0 {
        let t = s.drop_last();
        lemma_dedup(t);
        assert(s =~= t.push(s.last()));
        assert forall|x: FileId| dedup(s).contains(x) <==> s.contains(x) by {
            if s.contains(x) {
                let k = choose|k: int| 0 <= k < s.len() && s[k] == x;
                if k < s.len() - 1 {
                    assert(t[k] == x);
                    assert(t.contains(x));
                    assert(dedup(t).contains(x));
                    let m = choose|m: int| 0 <= m < dedup(t).len() && dedup(t)[m] == x;
                    if !dedup(t).contains(s.last()) {
                        assert(dedup(s)[m] == x);
                    }
                } else {
                    if !dedup(t).contains(s.last()) {
                        assert(dedup(s)[dedup(t).len() as int] == x);
                    }
                }
            }
            if dedup(s).contains(x) {
                let d = dedup(t);
                let k = choose|k: int| 0 <= k < dedup(s).len() && dedup(s)[k] == x;
                if d.contains(s.last()) {
                    assert(dedup(s) == d);
                    assert(d[k] == x);
                    assert(d.contains(x));
                    assert(t.contains(x));
                    let m = choose|m: int| 0 <= m < t.len() && t[m] == x;
                    assert(s[m] == x);
                } else {
                    assert(dedup(s) == d.push(s.last()));
                    if k < d.len() {
                        assert(d[k] == x);
                        assert(d.contains(x));
                        assert(t.contains(x));
                        let m = choose|m: int| 0 <= m < t.len() && t[m] == x;
                        assert(s[m] == x);
                    } else {
                        assert(s[s.len() - 1] == x);
                    }
                }
            }
        }
    }
}

fn contains_id(v: &Vec<FileId>, x: FileId) -> (r: bool)
    ensures
        r == v@.contains(x),
{
    let n = v.len();
    for i in 0..n
        invariant
            n == v.len(),
            forall|k: int| 0 <= k < i ==> v@[k] != x,
    {
        if v[i] == x {
            return true;
        }
    }
    false
}

fn dedup_ids(v: &Vec<FileId>) -> (r: Vec<FileId>)
    ensures
        r@ == dedup(v@),
{
    let mut r: Vec<FileId> = Vec::new();
    let n = v.len();
    for i in 0..n
        invariant
            n == v.len(),
            r@ == dedup(v@.take(i as int)),
    {
        proof {
            assert(v@.take(i + 1).drop_last() =~= v@.take(i as int));
        }
        if !contains_id(&r, v[i]) {
            r.push(v[i]);
        }
    }
    proof {
        assert(v@.take(n as int) =~= v@);
    }
    r
}

/// Every identifier that the detail lookup is asked for: the seeds and the
/// mods of each seed collection, sorted by their sort order, each once, in the
/// order of their first appearance.
pub fn lookup_ids(seeds: &Vec<FileId>, cols: &HashMap<FileId, CollectionDetail>) -> (r: Vec<FileId>)
    ensures
        r@ == dedup(expand(seeds@, cols@)),
{
    let mut all: Vec<FileId> = Vec::new();
    let n = seeds.len();
    for i in 0..n
        invariant
            n == seeds.len(),
            all@ == expand(seeds@.take(i as int), cols@),
    {
        let id = seeds[i];
        proof {
            assert(seeds@.take(i + 1).drop_last() =~= seeds@.take(i as int));
        }
        let ghost before = all@;
        all.push(id);
        match cols.get(&id) {
            Some(d) => {
                match &d.children {
                    Some(children) => {
                        let sorted = sort_children(children);
                        let mut leaves = leaf_children(&sorted);
                        all.append(&mut leaves);
                    },
                    None => {},
                }
            },
            None => {},
        }
        proof {
            let c = match children_in(cols@, id) {
                Some(c) => c,
                None => seq![],
            };
            assert(all@ =~= before + seq![id] + c);
        }
    }
    proof {
        assert(seeds@.take(n as int) =~= seeds@);
    }
    dedup_ids(&all)
}

// ---------------------------------------------------------------------------
// Resolved items
// ---------------------------------------------------------------------------

/// A validated item: a mod, or a collection with the mods it holds.
pub struct WFile {
    pub file_id: FileId,
    pub app_id: FileId,
    /// The collection's mods in order; absent for a mod.
    pub children: Option<Vec<FileId>>,
    pub title: String,
    pub description: String,
    /// Seconds since the Unix epoch.
    pub time_created: i64,
    /// Seconds since the Unix epoch.
    pub time_updated: i64,
}

impl WFile {
    pub open spec fn children_view(&self) -> Option<Seq<FileId>> {
        match &self.children {
            Some(c) => Some(c@),
            None => None,
        }
    }

    /// The item is what the valid record `d` and the collection lookup say.
    pub open spec fn built_from(&self, d: Detail, cols: Map<FileId, CollectionDetail>) -> bool {
        let inner = d.inner->0;
        &&& self.file_id == d.file_id
        &&& self.app_id == inner.app_id
        &&& self.title@ == inner.title@
        &&& self.description@ == inner.description@
        &&& self.time_created == inner.time_created
        &&& self.time_updated == inner.time_updated
        &&& self.children_view() == children_in(cols, d.file_id)
    }

    pub fn is_collection(&self) -> (r: bool)
        ensures
            r == self.children is Some,
    {
        self.children.is_some()
    }
}

/// The position of the last valid record for `id`, or -1 when there is none.
pub open spec fn last_valid(details: Seq<Detail>, id: FileId) -> int
    decreases details.len(),
{
    if details.len() == 0 {
        -1
    } else if details.last().valid() && details.last().file_id == id {
        details.len() - 1
    } else {
        last_valid(details.drop_last(), id)
    }
}

proof fn lemma_last_valid_range(details: Seq<Detail>, id: FileId)
    ensures
        -1 <= last_valid(details, id) < details.len(),
        last_valid(details, id) >= 0 ==> details[last_valid(details, id)].valid()
            && details[last_valid(details, id)].file_id == id,
    decreases details.len(),
{
    if details.len() > 0 {
        lemma_last_valid_range(details.drop_last(), id);
    }
}

/// `m` holds an item for exactly the identifiers with a valid record, built
/// from the last such record.
pub open spec fn resolves(
    m: Map<FileId, WFile>,
    details: Seq<Detail>,
    cols: Map<FileId, CollectionDetail>,
) -> bool {
    &&& forall|id: FileId| #[trigger] m.contains_key(id) <==> last_valid(details, id) >= 0
    &&& forall|id: FileId| #[trigger]
        m.contains_key(id) ==> m[id].built_from(details[last_valid(details, id)], cols)
}

/// The identifiers of the invalid records, in order.
pub open spec fn invalid_ids(details: Seq<Detail>) -> Seq<FileId>
    decreases details.len(),
{
    if details.len() == 0 {
        seq![]
    } else if details.last().valid() {
        invalid_ids(details.drop_last())
    } else {
        invalid_ids(details.drop_last()).push(details.last().file_id)
    }
}

/// The seeds that have an item in `m`, in order.
pub open spec fn kept(seeds: Seq<FileId>, m: Map<FileId, WFile>) -> Seq<FileId>
    decreases seeds.len(),
{
    if seeds.len() == 0 {
        seq![]
    } else if m.contains_key(seeds.last()) {
        kept(seeds.drop_last(), m).push(seeds.last())
    } else {
        kept(seeds.drop_last(), m)
    }
}

/// The seeds of a run and the items they resolved to.
pub struct WFiles {
    pub files: Vec<FileId>,
    pub all_files: HashMap<FileId, WFile>,
}

/// The item built from a valid detail record.
fn resolve_file(d: &Detail, cols: &HashMap<FileId, CollectionDetail>) -> (f: WFile)
    requires
        d.valid(),
    ensures
        f.built_from(*d, cols@),
{
    let inner = d.inner.as_ref().unwrap();
    let children = match cols.get(&d.file_id) {
        Some(c) => match &c.children {
            Some(ch) => {
                let sorted = sort_children(ch);
                Some(leaf_children(&sorted))
            },
            None => None,
        },
        None => None,
    };
    WFile {
        file_id: d.file_id,
        app_id: inner.app_id,
        children,
        title: inner.title.clone(),
        description: inner.description.clone(),
        time_created: inner.time_created,
        time_updated: inner.time_updated,
    }
}

impl WFiles {
    /// Every item is stored under its own identifier and every seed has an
    /// item.
    pub open spec fn wf(&self) -> bool {
        &&& forall|id: FileId| #[trigger]
            self.all_files@.contains_key(id) ==> self.all_files@[id].file_id == id
        &&& forall|i: int| 0 <= i < self.files@.len() ==> self.all_files@.contains_key(
            #[trigger] self.files@[i],
        )
    }

    /// Builds the items from the answers of the two lookups and drops the
    /// seeds without a valid record. The second result lists the identifiers
    /// of the invalid records, to be reported.
    pub fn new(
        files: Vec<FileId>,
        cols: &HashMap<FileId, CollectionDetail>,
        details: &Vec<Detail>,
    ) -> (r: (WFiles, Vec<FileId>))
        ensures
            resolves(r.0.all_files@, details@, cols@),
            r.0.files@ == kept(files@, r.0.all_files@),
            r.1@ == invalid_ids(details@),
            r.0.wf(),
    {
        let mut all_files: HashMap<FileId, WFile> = HashMap::new();
        let mut invalid: Vec<FileId> = Vec::new();
        let n = details.len();
        for i in 0..n
            invariant
                n == details.len(),
                resolves(all_files@, details@.take(i as int), cols@),
                invalid@ == invalid_ids(details@.take(i as int)),
        {
            let d = &details[i];
            let ghost pre = details@.take(i as int);
            let ghost post = details@.take(i + 1);
            proof {
                assert(post.drop_last() =~= pre);
            }
            if !d.is_valid_item() {
                invalid.push(d.file_id);
                assert forall|id: FileId| #[trigger]
                    all_files@.contains_key(id) implies all_files@[id].built_from(
                    post[last_valid(post, id)],
                    cols@,
                ) by {
                    lemma_last_valid_range(pre, id);
                    assert(post[last_valid(pre, id)] == pre[last_valid(pre, id)]);
                }
            } else {
                let f = resolve_file(d, cols);
                all_files.insert(d.file_id, f);
                assert forall|id: FileId| #[trigger]
                    all_files@.contains_key(id) implies all_files@[id].built_from(
                    post[last_valid(post, id)],
                    cols@,
                ) by {
                    if id != d.file_id {
                        lemma_last_valid_range(pre, id);
                        assert(last_valid(post, id) == last_valid(pre, id));
                        assert(post[last_valid(pre, id)] == pre[last_valid(pre, id)]);
                    }
                }
            }
        }
        proof {
            assert(details@.take(n as int) =~= details@);
            assert forall|id: FileId| #[trigger]
                all_files@.contains_key(id) implies all_files@[id].file_id == id by {
                lemma_last_valid_range(details@, id);
            }
        }
        let mut kept_files: Vec<FileId> = Vec::new();
        let m = files.len();
        for i in 0..m
            invariant
                m == files.len(),
                kept_files@ == kept(files@.take(i as int), all_files@),
                forall|k: int| 0 <= k < kept_files@.len() ==> all_files@.contains_key(
                    #[trigger] kept_files@[k],
                ),
        {
            proof {
                assert(files@.take(i + 1).drop_last() =~= files@.take(i as int));
            }
            if all_files.contains_key(&files[i]) {
                kept_files.push(files[i]);
            }
        }
        proof {
            assert(files@.take(m as int) =~= files@);
        }
        (WFiles { files: kept_files, all_files }, invalid)
    }
}

// ---------------------------------------------------------------------------
// Laws of the resolution
// ---------------------------------------------------------------------------

proof fn lemma_leaf_ids_from_mods(s: Seq<Child>, x: FileId)
    requires
        leaf_ids(s).contains(x),
    ensures
        exists|i: int| 0 <= i < s.len() && s[i].file_id == x && s[i].filetype == 0,
    decreases s.len(),
{
    let t = s.drop_last();
    if s.last().filetype == 0 && s.last().file_id == x {
        assert(s[s.len() - 1].file_id == x);
    } else {
        if s.last().filetype == 0 {
            let k = choose|k: int| 0 <= k < leaf_ids(s).len() && leaf_ids(s)[k] == x;
            assert(leaf_ids(t)[k] == x);
        }
        lemma_leaf_ids_from_mods(t, x);
        let i = choose|i: int| 0 <= i < t.len() && t[i].file_id == x && t[i].filetype == 0;
        assert(s[i] == t[i]);
    }
}

/// A resolved collection lists only entries that the collection marks as
/// mods: a nested collection is never among them.
pub proof fn lemma_children_are_mods(s: Seq<Child>, x: FileId)
    requires
        resolved_children(s).contains(x),
    ensures
        exists|i: int| 0 <= i < s.len() && s[i].file_id == x && s[i].filetype == 0,
{
    broadcast use vstd::seq_lib::group_to_multiset_ensures;

    let sorted = sort_by_order(s);
    lemma_leaf_ids_from_mods(sorted, x);
    let i = choose|i: int| 0 <= i < sorted.len() && sorted[i].file_id == x && sorted[i].filetype == 0;
    lemma_sort_by_order(s);
    assert(sorted.to_multiset().count(sorted[i]) > 0);
    assert(s.to_multiset().count(sorted[i]) > 0);
    assert(s.contains(sorted[i]));
}

/// Every identifier of the lookup set is a seed or a mod of a seed
/// collection.
pub proof fn lemma_lookup_members(seeds: Seq<FileId>, cols: Map<FileId, CollectionDetail>, x: FileId)
    requires
        dedup(expand(seeds, cols)).contains(x),
    ensures
        seeds.contains(x) || exists|i: int|
            0 <= i < seeds.len() && #[trigger] children_in(cols, seeds[i]) is Some
                && children_in(cols, seeds[i])->0.contains(x),
{
    lemma_dedup(expand(seeds, cols));
    lemma_expand_members(seeds, cols, x);
}

proof fn lemma_expand_members(seeds: Seq<FileId>, cols: Map<FileId, CollectionDetail>, x: FileId)
    requires
        expand(seeds, cols).contains(x),
    ensures
        seeds.contains(x) || exists|i: int|
            0 <= i < seeds.len() && #[trigger] children_in(cols, seeds[i]) is Some
                && children_in(cols, seeds[i])->0.contains(x),
    decreases seeds.len(),
{
    let t = seeds.drop_last();
    let id = seeds.last();
    let c = match children_in(cols, id) {
        Some(c) => c,
        None => seq![],
    };
    let e = expand(t, cols);
    let k = choose|k: int| 0 <= k < expand(seeds, cols).len() && expand(seeds, cols)[k] == x;
    if k < e.len() {
        assert(e[k] == x);
        lemma_expand_members(t, cols, x);
        if t.contains(x) {
            let j = choose|j: int| 0 <= j < t.len() && t[j] == x;
            assert(seeds[j] == x);
        } else {
            let j = choose|j: int|
                0 <= j < t.len() && #[trigger] children_in(cols, t[j]) is Some && children_in(
                    cols,
                    t[j],
                )->0.contains(x);
            assert(seeds[j] == t[j]);
        }
    } else if k == e.len() {
        assert(seeds[seeds.len() - 1] == x);
    } else {
        assert(c[k - e.len() - 1] == x);
        assert(seeds[seeds.len() - 1] == id);
    }
}

proof fn lemma_kept_in_map(seeds: Seq<FileId>, m: Map<FileId, WFile>, x: FileId)
    requires
        kept(seeds, m).contains(x),
    ensures
        m.contains_key(x),
    decreases seeds.len(),
{
    let t = seeds.drop_last();
    if m.contains_key(seeds.last()) && seeds.last() == x {
    } else {
        if m.contains_key(seeds.last()) {
            let k = choose|k: int| 0 <= k < kept(seeds, m).len() && kept(seeds, m)[k] == x;
            assert(kept(t, m)[k] == x);
        }
        lemma_kept_in_map(t, m, x);
    }
}

/// A seed for which the detail lookup gave no valid record leaves the run:
/// it has no item and is not among the seeds that the review walks.
pub proof fn lemma_invalid_seed_removed(
    seeds: Seq<FileId>,
    cols: Map<FileId, CollectionDetail>,
    details: Seq<Detail>,
    w: WFiles,
    id: FileId,
)
    requires
        resolves(w.all_files@, details, cols),
        w.files@ == kept(seeds, w.all_files@),
        forall|i: int| 0 <= i < details.len() && details[i].file_id == id ==> !details[i].valid(),
    ensures
        !w.all_files@.contains_key(id),
        !w.files@.contains(id),
{
    lemma_last_valid_range(details, id);
    if w.files@.contains(id) {
        lemma_kept_in_map(seeds, w.all_files@, id);
    }
}

proof fn lemma_kept_from_seeds(seeds: Seq<FileId>, m: Map<FileId, WFile>, x: FileId)
    requires
        kept(seeds, m).contains(x),
    ensures
        seeds.contains(x),
    decreases seeds.len(),
{
    let t = seeds.drop_last();
    if m.contains_key(seeds.last()) && seeds.last() == x {
        assert(seeds[seeds.len() - 1] == x);
    } else {
        if m.contains_key(seeds.last()) {
            let k = choose|k: int| 0 <= k < kept(seeds, m).len() && kept(seeds, m)[k] == x;
            assert(kept(t, m)[k] == x);
        }
        lemma_kept_from_seeds(t, m, x);
        let j = choose|j: int| 0 <= j < t.len() && t[j] == x;
        assert(seeds[j] == x);
    }
}

/// A nested collection is never resolved on its own: an identifier that is
/// not a seed and appears in the collections only as a nested collection is
/// not in the lookup set, has no item when the detail lookup was asked for
/// that set, and is not among the seeds of the run.
pub proof fn lemma_nested_collection_excluded(
    seeds: Seq<FileId>,
    cols: Map<FileId, CollectionDetail>,
    details: Seq<Detail>,
    w: WFiles,
    d: FileId,
)
    requires
        !seeds.contains(d),
        forall|c: FileId, i: int|
            cols.contains_key(c) && cols[c].children is Some && 0 <= i < cols[c].children->0@.len()
                && (#[trigger] cols[c].children->0@[i]).file_id == d ==> cols[c].children->0@[i].filetype
                != 0,
        resolves(w.all_files@, details, cols),
        w.files@ == kept(seeds, w.all_files@),
    ensures
        !dedup(expand(seeds, cols)).contains(d),
        (forall|i: int|
            0 <= i < details.len() ==> dedup(expand(seeds, cols)).contains(
                #[trigger] details[i].file_id,
            )) ==> !w.all_files@.contains_key(d),
        !w.files@.contains(d),
{
    if dedup(expand(seeds, cols)).contains(d) {
        lemma_lookup_members(seeds, cols, d);
        let i = choose|i: int|
            0 <= i < seeds.len() && #[trigger] children_in(cols, seeds[i]) is Some && children_in(
                cols,
                seeds[i],
            )->0.contains(d);
        let c = seeds[i];
        lemma_children_are_mods(cols[c].children->0@, d);
        let k = choose|k: int|
            0 <= k < cols[c].children->0@.len() && cols[c].children->0@[k].file_id == d
                && cols[c].children->0@[k].filetype == 0;
        assert(cols[c].children->0@[k].file_id == d);
    }
    if (forall|i: int|
        0 <= i < details.len() ==> dedup(expand(seeds, cols)).contains(
            #[trigger] details[i].file_id,
        )) && w.all_files@.contains_key(d) {
        lemma_last_valid_range(details, d);
        assert(details[last_valid(details, d)].file_id == d);
    }
    if w.files@.contains(d) {
        lemma_kept_from_seeds(seeds, w.all_files@, d);
    }
}

} // verus!
