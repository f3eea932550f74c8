//! Which items of the chat store belong to the active branch of the
//! conversation: the lineage of the active message, the history that
//! compaction summaries stand for, and the items attached to visible messages.

use vstd::prelude::*;
use crate::chat_store::{
    ChatItem, ChatItemData, ChatStore, MessageData, find_from, find_summary_from, item_id,
    lemma_find_from_bounds, lemma_find_summary_bounds, opt_view,
};

verus! {

/// Strings by their characters.
pub open spec fn ids_of(v: Seq<String>) -> Seq<Seq<char>> {
    v.map_values(|s: String| s@)
}

/// Whether `v` holds a string equal to `id`.
pub fn contains_id(v: &Vec<String>, id: &String) -> (b: bool)
    ensures
        b == ids_of(v@).contains(id@),
{
    let mut i: usize = 0;
    while i < v.len()
        invariant
            i <= v.len(),
            forall|j: int| 0 <= j < i ==> v@[j]@ != id@,
        decreases v.len() - i,
    {
        if v[i] == *id {
            assert(ids_of(v@)[i as int] == id@);
            return true;
        }
        i = i + 1;
    }
    assert forall|j: int| 0 <= j < ids_of(v@).len() implies ids_of(v@)[j] != id@ by {
        assert(ids_of(v@)[j] == v@[j]@);
    }
    false
}

/// The parent message of message `id` in the store.
pub fn parent_message_id_of(chat_store: &ChatStore, id: &String) -> (r: Option<String>)
    ensures
        opt_view(r) == chat_store.parent_of(id@),
{
    match chat_store.get_by_id(id) {
        Some(item) => match &item.data {
            ChatItemData::Message(m) => crate::chat_store::copy_opt(&m.parent_message_id),
            _ => None,
        },
        None => None,
    }
}

/// Following parent links `k` times from `o`.
pub open spec fn follow_parents(store: ChatStore, o: Option<Seq<char>>, k: nat) -> Option<Seq<char>>
    decreases k,
{
    if k == 0 {
        o
    } else {
        match follow_parents(store, o, (k - 1) as nat) {
            Some(x) => store.parent_of(x),
            None => None,
        }
    }
}

/// `x` is the active message or one of its ancestors.
pub open spec fn in_lineage(store: ChatStore, active: Seq<char>, x: Seq<char>) -> bool {
    exists|k: nat| follow_parents(store, Some(active), k) == Some(x)
}

proof fn lemma_follow_compose(store: ChatStore, o: Option<Seq<char>>, a: nat, b: nat)
    ensures
        follow_parents(store, o, a + b) == follow_parents(store, follow_parents(store, o, a), b),
    decreases b,
{
    if b > 0 {
        lemma_follow_compose(store, o, a, (b - 1) as nat);
        assert((a + b - 1) as nat == a + (b - 1) as nat);
    }
}

proof fn lemma_follow_none(store: ChatStore, o: Option<Seq<char>>, k: nat, m: nat)
    requires
        follow_parents(store, o, k) is None,
        k <= m,
    ensures
        follow_parents(store, o, m) is None,
    decreases m - k,
{
    if k < m {
        lemma_follow_none(store, o, k, (m - 1) as nat);
    }
}

proof fn lemma_follow_periodic(store: ChatStore, o: Option<Seq<char>>, j: nat, k: nat, m: nat)
    requires
        j < k,
        follow_parents(store, o, k) == follow_parents(store, o, j),
    ensures
        exists|i: nat| i < k && follow_parents(store, o, m) == follow_parents(store, o, i),
    decreases m,
{
    if m < k {
        assert(follow_parents(store, o, m) == follow_parents(store, o, m));
    } else {
        let t = (m - k) as nat;
        lemma_follow_compose(store, o, k, t);
        lemma_follow_compose(store, o, j, t);
        assert(m == k + t);
        lemma_follow_periodic(store, o, j, k, j + t);
    }
}

proof fn lemma_parent_is_stored(store: ChatStore, x: Seq<char>)
    requires
        store.parent_of(x) is Some,
    ensures
        store.item_ids().contains(x),
{
    lemma_find_from_bounds(store.items_view(), x, 0);
    let k = find_from(store.items_view(), x, 0)->0;
    assert(store.item_ids()[k] == x);
}

/// A sequence without repeats, all of whose members occur in `b`, is no longer than `b`.
pub proof fn lemma_distinct_within(a: Seq<Seq<char>>, b: Seq<Seq<char>>)
    requires
        a.no_duplicates(),
        forall|i: int| 0 <= i < a.len() ==> b.contains(#[trigger] a[i]),
    ensures
        a.len() <= b.len(),
{
    a.unique_seq_to_set();
    b.lemma_cardinality_of_set();
    assert(a.to_set().subset_of(b.to_set())) by {
        assert forall|x: Seq<char>| a.to_set().contains(x) implies b.to_set().contains(x) by {
            let i = choose|i: int| 0 <= i < a.len() && a[i] == x;
        }
    }
    vstd::set_lib::lemma_len_subset(a.to_set(), b.to_set());
}

/// The ids of the active message and its ancestors (following parent links
/// until a message has no parent, is not in the store, or repeats).
pub fn build_lineage_set(active_message_id: &String, chat_store: &ChatStore) -> (lineage: Vec<String>)
    ensures
        ids_of(lineage@).no_duplicates(),
        forall|x: Seq<char>| ids_of(lineage@).contains(x) <==> in_lineage(*chat_store, active_message_id@, x),
{
    let ghost store = *chat_store;
    let ghost a = active_message_id@;
    let ghost n = chat_store.item_ids().len();
    let mut lineage: Vec<String> = Vec::new();
    let mut current: Option<String> = Some(active_message_id.clone());
    let ghost mut k: nat = 0;
    while current.is_some()
        invariant
            store == *chat_store,
            n == chat_store.item_ids().len(),
            k == lineage@.len(),
            forall|j: int| 0 <= j < k ==> follow_parents(store, Some(a), j as nat) == Some(#[trigger] ids_of(lineage@)[j]),
            opt_view(current) == follow_parents(store, Some(a), k),
            ids_of(lineage@).no_duplicates(),
            current is Some ==> forall|j: int| 0 <= j < k ==> chat_store.item_ids().contains(#[trigger] ids_of(lineage@)[j]),
            current is Some ==> k <= n,
        ensures
            current is Some ==> ids_of(lineage@).contains(current->0@),
        decreases n + 1 - k,
    {
        let id = match current {
            Some(s) => s,
            None => { break; },
        };
        proof {
            lemma_distinct_within(ids_of(lineage@), chat_store.item_ids());
        }
        if contains_id(&lineage, &id) {
            current = Some(id);
            break;
        }
        let ghost before = ids_of(lineage@);
        lineage.push(id.clone());
        proof {
            assert(ids_of(lineage@) =~= before.push(id@));
            k = k + 1;
        }
        current = parent_message_id_of(chat_store, &id);
        proof {
            if current is Some {
                lemma_parent_is_stored(store, id@);
                assert forall|j: int| 0 <= j < k implies chat_store.item_ids().contains(#[trigger] ids_of(lineage@)[j]) by {
                    if j < k - 1 {
                        assert(ids_of(lineage@)[j] == before[j]);
                    }
                }
                lemma_distinct_within(ids_of(lineage@), chat_store.item_ids());
            }
        }
    }
    proof {
        let l = ids_of(lineage@);
        assert forall|x: Seq<char>| l.contains(x) <==> in_lineage(store, a, x) by {
            if l.contains(x) {
                let j = choose|j: int| 0 <= j < l.len() && l[j] == x;
                assert(follow_parents(store, Some(a), j as nat) == Some(x));
            }
            if in_lineage(store, a, x) {
                let m = choose|m: nat| follow_parents(store, Some(a), m) == Some(x);
                if current is None {
                    if m >= k {
                        lemma_follow_none(store, Some(a), k, m);
                    }
                    assert(l[m as int] == x);
                } else {
                    let c = current->0@;
                    let j = choose|j: int| 0 <= j < l.len() && l[j] == c;
                    lemma_follow_periodic(store, Some(a), j as nat, k, m);
                    let i = choose|i: nat| i < k && follow_parents(store, Some(a), m) == follow_parents(store, Some(a), i);
                    assert(l[i as int] == x);
                }
            }
        }
    }
    lineage
}


/// `x` is the parent message or the compacted head of `y`.
pub open spec fn edge(store: ChatStore, y: Seq<char>, x: Seq<char>) -> bool {
    store.parent_of(y) == Some(x) || store.head_of(y) == Some(x)
}

/// A chain of parent and compacted-head links starting at a member of `start`.
pub open spec fn is_path(store: ChatStore, start: spec_fn(Seq<char>) -> bool, path: Seq<Seq<char>>) -> bool {
    &&& path.len() > 0
    &&& start(path[0])
    &&& forall|i: int| 0 <= i < path.len() - 1 ==> edge(store, #[trigger] path[i], path[i + 1])
}

/// `x` is reached from `start` by parent and compacted-head links: the
/// history that messages of `start` continue, through compaction summaries.
pub open spec fn in_history(store: ChatStore, start: spec_fn(Seq<char>) -> bool, x: Seq<char>) -> bool {
    exists|path: Seq<Seq<char>>| #[trigger] is_path(store, start, path) && path.last() == x
}

/// The parent of every message in `set` is in `set`.
pub open spec fn parent_closed(store: ChatStore, set: Seq<Seq<char>>) -> bool {
    forall|i: int| 0 <= i < set.len() ==> (store.parent_of(#[trigger] set[i]) matches Some(p) ==> set.contains(p))
}

pub open spec fn parents_seq(store: ChatStore) -> Seq<Seq<char>> {
    store.items_view().map_values(|it: ChatItem| match it.data {
        ChatItemData::Message(m) => match m.parent_message_id {
            Some(p) => p@,
            None => Seq::<char>::empty(),
        },
        _ => Seq::<char>::empty(),
    })
}

pub open spec fn heads_seq(store: ChatStore) -> Seq<Seq<char>> {
    store.compaction_view().map_values(|e: (String, Option<String>)| match e.1 {
        Some(h) => h@,
        None => Seq::<char>::empty(),
    })
}

pub open spec fn summary_ids(store: ChatStore) -> Seq<Seq<char>> {
    store.compaction_view().map_values(|e: (String, Option<String>)| e.0@)
}

proof fn lemma_push_keeps(s: Seq<Seq<char>>, x: Seq<char>)
    ensures
        forall|y: Seq<char>| s.contains(y) ==> #[trigger] s.push(x).contains(y),
        s.push(x).contains(x),
{
    assert forall|y: Seq<char>| s.contains(y) implies #[trigger] s.push(x).contains(y) by {
        let j = choose|j: int| 0 <= j < s.len() && s[j] == y;
        assert(s.push(x)[j] == y);
    }
    assert(s.push(x)[s.len() as int] == x);
}

proof fn lemma_parent_listed(store: ChatStore, x: Seq<char>)
    requires
        store.parent_of(x) is Some,
    ensures
        parents_seq(store).contains(store.parent_of(x)->0),
{
    lemma_find_from_bounds(store.items_view(), x, 0);
    let k = find_from(store.items_view(), x, 0)->0;
    assert(parents_seq(store)[k] == store.parent_of(x)->0);
}

proof fn lemma_head_listed(store: ChatStore, x: Seq<char>)
    requires
        store.head_of(x) is Some,
    ensures
        heads_seq(store).contains(store.head_of(x)->0),
        summary_ids(store).contains(x),
{
    lemma_find_summary_bounds(store.compaction_view(), x, 0);
    let k = find_summary_from(store.compaction_view(), x, 0)->0;
    assert(heads_seq(store)[k] == store.head_of(x)->0);
    assert(summary_ids(store)[k] == x);
}

proof fn lemma_history_start(store: ChatStore, start: spec_fn(Seq<char>) -> bool, x: Seq<char>)
    requires
        start(x),
    ensures
        in_history(store, start, x),
{
    let path = seq![x];
    assert(is_path(store, start, path));
}

proof fn lemma_history_step(store: ChatStore, start: spec_fn(Seq<char>) -> bool, y: Seq<char>, x: Seq<char>)
    requires
        in_history(store, start, y),
        edge(store, y, x),
    ensures
        in_history(store, start, x),
{
    let path = choose|path: Seq<Seq<char>>| #[trigger] is_path(store, start, path) && path.last() == y;
    let longer = path.push(x);
    assert forall|i: int| 0 <= i < longer.len() - 1 implies edge(store, #[trigger] longer[i], longer[i + 1]) by {
        if i < path.len() - 1 {
            assert(longer[i] == path[i] && longer[i + 1] == path[i + 1]);
        }
    }
    assert(is_path(store, start, longer));
}

proof fn lemma_path_within(store: ChatStore, start: spec_fn(Seq<char>) -> bool, set: Seq<Seq<char>>, path: Seq<Seq<char>>, n: int)
    requires
        forall|x: Seq<char>| #[trigger] start(x) ==> set.contains(x),
        forall|i: int| 0 <= i < set.len() ==> (store.parent_of(#[trigger] set[i]) matches Some(p) ==> set.contains(p)),
        forall|i: int| 0 <= i < set.len() ==> (store.head_of(#[trigger] set[i]) matches Some(h) ==> set.contains(h)),
        is_path(store, start, path),
        0 <= n < path.len(),
    ensures
        set.contains(path[n]),
    decreases n,
{
    if n == 0 {
    } else {
        lemma_path_within(store, start, set, path, n - 1);
        assert(edge(store, path[n - 1], path[n]));
        let i = choose|i: int| 0 <= i < set.len() && set[i] == path[n - 1];
    }
}

/// A link that the walk for visible messages follows from `y`: to its
/// compacted head, and, unless `y` is in the lineage `l`, to its parent.
pub open spec fn walk_edge(store: ChatStore, l: Seq<Seq<char>>, y: Seq<char>, x: Seq<char>) -> bool {
    store.head_of(y) == Some(x) || (!l.contains(y) && store.parent_of(y) == Some(x))
}

/// A chain of walked links starting in the lineage `l`.
pub open spec fn is_walk(store: ChatStore, l: Seq<Seq<char>>, path: Seq<Seq<char>>) -> bool {
    &&& path.len() > 0
    &&& l.contains(path[0])
    &&& forall|i: int| 0 <= i < path.len() - 1 ==> walk_edge(store, l, #[trigger] path[i], path[i + 1])
}

/// `x` is shown with the lineage `l`: reached from it through compacted
/// heads, and from there up through parents (the parents of the lineage's
/// own messages are not followed).
pub open spec fn in_walk(store: ChatStore, l: Seq<Seq<char>>, x: Seq<char>) -> bool {
    exists|path: Seq<Seq<char>>| #[trigger] is_walk(store, l, path) && path.last() == x
}

proof fn lemma_walk_start(store: ChatStore, l: Seq<Seq<char>>, x: Seq<char>)
    requires
        l.contains(x),
    ensures
        in_walk(store, l, x),
{
    let path = seq![x];
    assert(is_walk(store, l, path));
}

proof fn lemma_walk_step(store: ChatStore, l: Seq<Seq<char>>, y: Seq<char>, x: Seq<char>)
    requires
        in_walk(store, l, y),
        walk_edge(store, l, y, x),
    ensures
        in_walk(store, l, x),
{
    let path = choose|path: Seq<Seq<char>>| #[trigger] is_walk(store, l, path) && path.last() == y;
    let longer = path.push(x);
    assert forall|i: int| 0 <= i < longer.len() - 1 implies walk_edge(store, l, #[trigger] longer[i], longer[i + 1]) by {
        if i < path.len() - 1 {
            assert(longer[i] == path[i] && longer[i + 1] == path[i + 1]);
        }
    }
    assert(is_walk(store, l, longer));
}

proof fn lemma_walk_within(store: ChatStore, l: Seq<Seq<char>>, set: Seq<Seq<char>>, path: Seq<Seq<char>>, n: int)
    requires
        forall|x: Seq<char>| #[trigger] l.contains(x) ==> set.contains(x),
        forall|i: int| 0 <= i < set.len() ==> (!l.contains(set[i]) ==> (store.parent_of(#[trigger] set[i]) matches Some(p) ==> set.contains(p))),
        forall|i: int| 0 <= i < set.len() ==> (store.head_of(#[trigger] set[i]) matches Some(h) ==> set.contains(h)),
        is_walk(store, l, path),
        0 <= n < path.len(),
    ensures
        set.contains(path[n]),
    decreases n,
{
    if n == 0 {
    } else {
        lemma_walk_within(store, l, set, path, n - 1);
        assert(walk_edge(store, l, path[n - 1], path[n]));
        let i = choose|i: int| 0 <= i < set.len() && set[i] == path[n - 1];
    }
}

/// With a lineage that holds the parent of each of its messages, the walk
/// reaches exactly the history of the lineage.
pub proof fn lemma_walk_is_history(store: ChatStore, l: Seq<Seq<char>>, x: Seq<char>)
    requires
        parent_closed(store, l),
    ensures
        in_walk(store, l, x) <==> in_history(store, |y: Seq<char>| l.contains(y), x),
{
    let ls = |y: Seq<char>| l.contains(y);
    if in_walk(store, l, x) {
        let path = choose|path: Seq<Seq<char>>| #[trigger] is_walk(store, l, path) && path.last() == x;
        assert forall|i: int| 0 <= i < path.len() - 1 implies edge(store, #[trigger] path[i], path[i + 1]) by {
            assert(walk_edge(store, l, path[i], path[i + 1]));
        }
        assert(is_path(store, ls, path));
    }
    if in_history(store, ls, x) {
        let path = choose|path: Seq<Seq<char>>| #[trigger] is_path(store, ls, path) && path.last() == x;
        lemma_history_path_walks(store, l, path, path.len() - 1);
    }
}

proof fn lemma_history_path_walks(store: ChatStore, l: Seq<Seq<char>>, path: Seq<Seq<char>>, n: int)
    requires
        parent_closed(store, l),
        is_path(store, |y: Seq<char>| l.contains(y), path),
        0 <= n < path.len(),
    ensures
        in_walk(store, l, path[n]),
    decreases n,
{
    if n == 0 {
        lemma_walk_start(store, l, path[0]);
    } else {
        lemma_history_path_walks(store, l, path, n - 1);
        assert(edge(store, path[n - 1], path[n]));
        if walk_edge(store, l, path[n - 1], path[n]) {
            lemma_walk_step(store, l, path[n - 1], path[n]);
        } else {
            let i = choose|i: int| 0 <= i < l.len() && l[i] == path[n - 1];
            assert(store.parent_of(l[i]) == Some(path[n]));
            lemma_walk_start(store, l, path[n]);
        }
    }
}

/// The messages shown for a branch whose lineage is `lineage`: the lineage,
/// and, for every compaction summary shown, the history it compacted (the
/// compacted head and its ancestors), repeatedly for nested summaries.
pub fn build_visible_message_set(lineage: &Vec<String>, chat_store: &ChatStore) -> (visible: Vec<String>)
    ensures
        ids_of(visible@).no_duplicates(),
        forall|x: Seq<char>| ids_of(visible@).contains(x) <==> in_walk(*chat_store, ids_of(lineage@), x),
        parent_closed(*chat_store, ids_of(lineage@)) ==> forall|x: Seq<char>|
            ids_of(visible@).contains(x) <==> in_history(
                *chat_store,
                |y: Seq<char>| ids_of(lineage@).contains(y),
                x,
            ),
{
    let ghost store = *chat_store;
    let ghost l = ids_of(lineage@);
    let ghost ls = |y: Seq<char>| l.contains(y);
    let ghost cand = l + parents_seq(store) + heads_seq(store);
    let ghost sids = summary_ids(store);
    let mut visible: Vec<String> = Vec::new();
    let mut k: usize = 0;
    while k < lineage.len()
        invariant
            k <= lineage.len(),
            l == ids_of(lineage@),
            ids_of(visible@).no_duplicates(),
            forall|j: int| 0 <= j < k ==> ids_of(visible@).contains(#[trigger] l[j]),
            forall|j: int| 0 <= j < visible@.len() ==> l.contains(#[trigger] ids_of(visible@)[j]),
        decreases lineage.len() - k,
    {
        if !contains_id(&visible, &lineage[k]) {
            let ghost v_before = ids_of(visible@);
            visible.push(lineage[k].clone());
            proof {
                assert(ids_of(visible@) =~= v_before.push(l[k as int]));
                lemma_push_keeps(v_before, l[k as int]);
                assert(l.contains(l[k as int]));
            }
        }
        k = k + 1;
    }
    proof {
        assert forall|i: int| 0 <= i < l.len() implies in_walk(store, l, #[trigger] l[i]) by {
            lemma_walk_start(store, l, l[i]);
        }
        assert forall|j: int| 0 <= j < visible@.len() implies cand.contains(#[trigger] ids_of(visible@)[j]) by {
            let i = choose|i: int| 0 <= i < l.len() && l[i] == ids_of(visible@)[j];
            assert(cand[i] == l[i]);
        }
        assert forall|j: int| 0 <= j < visible@.len() implies in_walk(store, l, #[trigger] ids_of(visible@)[j]) by {
            let i = choose|i: int| 0 <= i < l.len() && l[i] == ids_of(visible@)[j];
            lemma_walk_start(store, l, l[i]);
        }
    }
    let mut pending: Vec<String> = Vec::new();
    let mut i: usize = 0;
    while i < lineage.len()
        invariant
            i <= lineage.len(),
            l == ids_of(lineage@),
            ls == (|y: Seq<char>| l.contains(y)),
            store == *chat_store,
            forall|j: int| 0 <= j < pending@.len() ==> store.head_of(#[trigger] ids_of(pending@)[j]) is Some,
            forall|j: int| 0 <= j < pending@.len() ==> in_walk(store, l, #[trigger] ids_of(pending@)[j]),
            forall|j: int| 0 <= j < l.len() ==> in_walk(store, l, #[trigger] l[j]),
            forall|j: int| 0 <= j < i ==> (store.head_of(#[trigger] l[j]) is Some ==> ids_of(pending@).contains(l[j])),
        decreases lineage.len() - i,
    {
        if chat_store.compacted_head_for_summary(&lineage[i]).is_some() {
            let ghost before = ids_of(pending@);
            pending.push(lineage[i].clone());
            proof {
                assert(ids_of(pending@) =~= before.push(l[i as int]));
                lemma_push_keeps(before, l[i as int]);
            }
        }
        i = i + 1;
    }
    let mut expanded: Vec<String> = Vec::new();
    while pending.len() > 0
        invariant
            store == *chat_store,
            l == ids_of(lineage@),
            ls == (|y: Seq<char>| l.contains(y)),
            cand == l + parents_seq(store) + heads_seq(store),
            sids == summary_ids(store),
            forall|j: int| 0 <= j < l.len() ==> ids_of(visible@).contains(#[trigger] l[j]),
            forall|j: int| 0 <= j < visible@.len() ==> in_walk(store, l, #[trigger] ids_of(visible@)[j]),
            forall|j: int| 0 <= j < visible@.len() ==> (!l.contains(ids_of(visible@)[j]) ==> (store.parent_of(#[trigger] ids_of(visible@)[j]) matches Some(p) ==> ids_of(visible@).contains(p))),
            forall|j: int| 0 <= j < visible@.len() ==> (store.head_of(#[trigger] ids_of(visible@)[j]) is Some ==> ids_of(pending@).contains(ids_of(visible@)[j]) || ids_of(expanded@).contains(ids_of(visible@)[j])),
            forall|j: int| 0 <= j < expanded@.len() ==> (store.head_of(#[trigger] ids_of(expanded@)[j]) matches Some(h) ==> ids_of(visible@).contains(h)),
            forall|j: int| 0 <= j < pending@.len() ==> store.head_of(#[trigger] ids_of(pending@)[j]) is Some,
            forall|j: int| 0 <= j < pending@.len() ==> in_walk(store, l, #[trigger] ids_of(pending@)[j]),
            ids_of(visible@).no_duplicates(),
            ids_of(expanded@).no_duplicates(),
            forall|j: int| 0 <= j < visible@.len() ==> cand.contains(#[trigger] ids_of(visible@)[j]),
            forall|j: int| 0 <= j < expanded@.len() ==> sids.contains(#[trigger] ids_of(expanded@)[j]),
        ensures
            pending@.len() == 0,
        decreases cand.len() - visible@.len(), sids.len() - expanded@.len(), pending@.len(),
    {
        proof {
            lemma_distinct_within(ids_of(visible@), cand);
            lemma_distinct_within(ids_of(expanded@), sids);
        }
        let ghost p_before = ids_of(pending@);
        let summary_id = match pending.pop() {
            Some(s) => s,
            None => { break; },
        };
        proof {
            assert(p_before =~= ids_of(pending@).push(summary_id@));
            assert(p_before.last() == summary_id@);
            assert forall|x: Seq<char>| p_before.contains(x) && x != summary_id@ implies ids_of(pending@).contains(x) by {
                let j = choose|j: int| 0 <= j < p_before.len() && p_before[j] == x;
            }
            assert(store.head_of(p_before[p_before.len() - 1]) is Some);
            assert forall|j: int| 0 <= j < pending@.len() implies #[trigger] ids_of(pending@)[j] == p_before[j] by {
            }
        }
        if contains_id(&expanded, &summary_id) {
            continue;
        }
        let ghost e_before = ids_of(expanded@);
        expanded.push(summary_id.clone());
        proof {
            assert(ids_of(expanded@) =~= e_before.push(summary_id@));
            lemma_push_keeps(e_before, summary_id@);
            lemma_head_listed(store, summary_id@);
        }
        let head = match chat_store.compacted_head_for_summary(&summary_id) {
            Some(h) => h.clone(),
            None => { continue; },
        };
        proof {
            assert(in_walk(store, l, p_before[p_before.len() - 1]));
            lemma_walk_step(store, l, summary_id@, head@);
            assert(cand.contains(head@)) by {
                let j = choose|j: int| 0 <= j < heads_seq(store).len() && heads_seq(store)[j] == head@;
                assert(cand[l.len() + parents_seq(store).len() + j] == head@);
            }
        }
        let mut current: Option<String> = Some(head);
        let ghost v0 = visible@.len();
        while current.is_some()
            invariant
                visible@.len() >= v0,
                store == *chat_store,
                l == ids_of(lineage@),
                ls == (|y: Seq<char>| l.contains(y)),
                cand == l + parents_seq(store) + heads_seq(store),
                sids == summary_ids(store),
                forall|j: int| 0 <= j < l.len() ==> ids_of(visible@).contains(#[trigger] l[j]),
                forall|j: int| 0 <= j < visible@.len() ==> in_walk(store, l, #[trigger] ids_of(visible@)[j]),
                current matches Some(c) ==> in_walk(store, l, c@) && cand.contains(c@),
                forall|j: int| 0 <= j < visible@.len() ==> (!l.contains(ids_of(visible@)[j]) ==> (store.parent_of(#[trigger] ids_of(visible@)[j]) matches Some(p) ==> ids_of(visible@).contains(p) || opt_view(current) == Some(p))),
                forall|j: int| 0 <= j < visible@.len() ==> (store.head_of(#[trigger] ids_of(visible@)[j]) is Some ==> ids_of(pending@).contains(ids_of(visible@)[j]) || ids_of(expanded@).contains(ids_of(visible@)[j])),
                forall|j: int| 0 <= j < expanded@.len() ==> (store.head_of(#[trigger] ids_of(expanded@)[j]) matches Some(h) ==> ids_of(visible@).contains(h) || opt_view(current) == Some(h)),
                forall|j: int| 0 <= j < pending@.len() ==> store.head_of(#[trigger] ids_of(pending@)[j]) is Some,
                forall|j: int| 0 <= j < pending@.len() ==> in_walk(store, l, #[trigger] ids_of(pending@)[j]),
                ids_of(visible@).no_duplicates(),
                ids_of(expanded@).no_duplicates(),
                forall|j: int| 0 <= j < visible@.len() ==> cand.contains(#[trigger] ids_of(visible@)[j]),
                forall|j: int| 0 <= j < expanded@.len() ==> sids.contains(#[trigger] ids_of(expanded@)[j]),
            ensures
                current matches Some(c) ==> ids_of(visible@).contains(c@),
            decreases cand.len() - visible@.len(),
        {
            let id = match current {
                Some(c) => c,
                None => { break; },
            };
            proof {
                lemma_distinct_within(ids_of(visible@), cand);
            }
            let inserted = !contains_id(&visible, &id);
            if inserted {
                let ghost v_before = ids_of(visible@);
                visible.push(id.clone());
                proof {
                    assert(ids_of(visible@) =~= v_before.push(id@));
                    lemma_push_keeps(v_before, id@);
                }
            }
            if chat_store.compacted_head_for_summary(&id).is_some() {
                let ghost pb = ids_of(pending@);
                pending.push(id.clone());
                proof {
                    assert(ids_of(pending@) =~= pb.push(id@));
                    lemma_push_keeps(pb, id@);
                }
            }
            if !inserted {
                current = Some(id);
                break;
            }
            current = parent_message_id_of(chat_store, &id);
            proof {
                lemma_distinct_within(ids_of(visible@), cand);
                if current is Some {
                    lemma_walk_step(store, l, id@, current->0@);
                    lemma_parent_listed(store, id@);
                    assert(cand.contains(current->0@)) by {
                        let j = choose|j: int| 0 <= j < parents_seq(store).len() && parents_seq(store)[j] == current->0@;
                        assert(cand[l.len() + j] == current->0@);
                    }
                }
            }
        }
        proof {
            lemma_distinct_within(ids_of(visible@), cand);
            lemma_distinct_within(ids_of(expanded@), sids);
        }
    }
    proof {
        let v = ids_of(visible@);
        assert forall|x: Seq<char>| v.contains(x) <==> in_walk(store, l, x) by {
            if v.contains(x) {
                let j = choose|j: int| 0 <= j < v.len() && v[j] == x;
            }
            if in_walk(store, l, x) {
                let path = choose|path: Seq<Seq<char>>| #[trigger] is_walk(store, l, path) && path.last() == x;
                assert forall|j: int| 0 <= j < v.len() implies (store.head_of(#[trigger] v[j]) matches Some(h) ==> v.contains(h)) by {
                    if store.head_of(v[j]) is Some {
                        assert(!ids_of(pending@).contains(v[j]));
                        let e = choose|e: int| 0 <= e < expanded@.len() && ids_of(expanded@)[e] == v[j];
                    }
                }
                assert forall|y: Seq<char>| #[trigger] l.contains(y) implies v.contains(y) by {
                    let j = choose|j: int| 0 <= j < l.len() && l[j] == y;
                }
                lemma_walk_within(store, l, v, path, path.len() - 1);
            }
        }
        if parent_closed(store, l) {
            assert forall|x: Seq<char>| v.contains(x) <==> in_history(store, ls, x) by {
                lemma_walk_is_history(store, l, x);
            }
        }
    }
    visible
}


/// Walking up the attachment chain from `cur` (at most `fuel` items) reaches
/// a visible message before reaching a message that is not visible, an item
/// without a parent, or an id that is not in the store.
pub open spec fn attached_visible(store: ChatStore, vis: Seq<Seq<char>>, cur: Option<Seq<char>>, fuel: nat) -> bool
    decreases fuel,
{
    if fuel == 0 {
        false
    } else {
        match cur {
            None => false,
            Some(p) => if vis.contains(p) {
                true
            } else {
                match store.lookup(p) {
                    None => false,
                    Some(it) => match it.data {
                        ChatItemData::Message(_) => false,
                        _ => attached_visible(store, vis, opt_view(it.parent_chat_item_id), (fuel - 1) as nat),
                    },
                }
            },
        }
    }
}

/// Whether an item is shown for the visible message set `vis`: a message when
/// it is in `vis`; a root-level item always; an attached item when its chain of
/// attachments leads to a visible message. (An attachment chain that does not
/// repeat has at most one item per stored item, so `len + 1` steps decide it.)
pub open spec fn item_visible(store: ChatStore, vis: Seq<Seq<char>>, item: ChatItem) -> bool {
    match item.data {
        ChatItemData::Message(m) => vis.contains(m.id@),
        _ => match item.parent_chat_item_id {
            None => true,
            Some(p) => attached_visible(store, vis, Some(p@), (store.items_view().len() + 1) as nat),
        },
    }
}

/// Whether `item` is shown when the visible messages are `visible_messages`.
pub fn is_visible(item: &ChatItem, visible_messages: &Vec<String>, chat_store: &ChatStore) -> (b: bool)
    requires
        chat_store.items_view().len() < usize::MAX,
    ensures
        b == item_visible(*chat_store, ids_of(visible_messages@), *item),
{
    let ghost store = *chat_store;
    let ghost vis = ids_of(visible_messages@);
    if let ChatItemData::Message(msg) = &item.data {
        return contains_id(visible_messages, &msg.id);
    }
    let mut current: Option<String> = match &item.parent_chat_item_id {
        None => { return true; },
        Some(p) => Some(p.clone()),
    };
    assert(opt_view(current) == opt_view(item.parent_chat_item_id));
    let limit = chat_store.len() + 1;
    let mut fuel = limit;
    while fuel > 0
        invariant
            store == *chat_store,
            vis == ids_of(visible_messages@),
            fuel <= limit,
            limit == store.items_view().len() + 1,
            item_visible(store, vis, *item) == attached_visible(store, vis, opt_view(current), fuel as nat),
        decreases fuel,
    {
        let parent_id = match current {
            None => { return false; },
            Some(p) => p,
        };
        if contains_id(visible_messages, &parent_id) {
            return true;
        }
        match chat_store.get_by_id(&parent_id) {
            None => { return false; },
            Some(parent_item) => {
                if let ChatItemData::Message(_) = &parent_item.data {
                    return false;
                }
                current = crate::chat_store::copy_opt(&parent_item.parent_chat_item_id);
            },
        }
        fuel = fuel - 1;
    }
    false
}

/// The key under which messages are grouped as edits of one another: their parent.
pub open spec fn user_parent_key(item: ChatItem) -> Option<Option<Seq<char>>> {
    match item.data {
        ChatItemData::Message(m) => if m.data is User {
            Some(opt_view(m.parent_message_id))
        } else {
            None
        },
        _ => None,
    }
}

/// `x` is a user message with an earlier user message under the same parent:
/// an edit of that message.
pub open spec fn is_edited(items: Seq<ChatItem>, x: Seq<char>) -> bool {
    exists|i: int, j: int|
        0 <= j < i < items.len() && #[trigger] user_parent_key(items[i]) is Some && item_id(items[i]) == x
            && #[trigger] user_parent_key(items[j]) == user_parent_key(items[i])
}

/// Optional strings by their characters.
pub open spec fn seen_keys(seen: Seq<Option<String>>) -> Seq<Option<Seq<char>>> {
    seen.map_values(|k: Option<String>| opt_view(k))
}

fn contains_key(seen: &Vec<Option<String>>, key: &Option<String>) -> (b: bool)
    ensures
        b == seen_keys(seen@).contains(opt_view(*key)),
{
    let ghost sv = seen_keys(seen@);
    let mut i: usize = 0;
    while i < seen.len()
        invariant
            i <= seen.len(),
            sv == seen_keys(seen@),
            forall|j: int| 0 <= j < i ==> sv[j] != opt_view(*key),
        decreases seen.len() - i,
    {
        let same = match (&seen[i], key) {
            (Some(a), Some(b)) => *a == *b,
            (None, None) => true,
            _ => false,
        };
        if same {
            assert(sv[i as int] == opt_view(*key));
            return true;
        }
        i = i + 1;
    }
    false
}

/// The user messages that were edited into existence: those with an earlier
/// user message under the same parent.
pub fn build_edited_message_ids(chat_store: &ChatStore) -> (edited: Vec<String>)
    ensures
        forall|x: Seq<char>| ids_of(edited@).contains(x) <==> is_edited(chat_store.items_view(), x),
{
    let items = chat_store.items();
    let ghost it = items@;
    let mut edited: Vec<String> = Vec::new();
    let mut seen: Vec<Option<String>> = Vec::new();
    let mut i: usize = 0;
    while i < items.len()
        invariant
            it == items@,
            it == chat_store.items_view(),
            i <= items.len(),
            forall|key: Option<Seq<char>>| #[trigger] seen_keys(seen@).contains(key) <==> exists|j: int| 0 <= j < i && #[trigger] user_parent_key(it[j]) == Some(key),
            forall|x: Seq<char>| ids_of(edited@).contains(x) <==> is_edited(it.take(i as int), x),
        decreases items.len() - i,
    {
        let ghost sv_before = seen_keys(seen@);
        let ghost ed_before = ids_of(edited@);
        let item = &items[i];
        assert(it.take(i + 1).drop_last() =~= it.take(i as int));
        if let ChatItemData::Message(m) = &item.data {
            if matches!(m.data, MessageData::User) {
                let key = crate::chat_store::copy_opt(&m.parent_message_id);
                if contains_key(&seen, &key) {
                    edited.push(m.id.clone());
                    proof {
                        assert(ids_of(edited@) =~= ed_before.push(m.id@));
                        lemma_push_keeps(ed_before, m.id@);
                        let j = choose|j: int| 0 <= j < i && #[trigger] user_parent_key(it[j]) == Some(opt_view(key));
                        assert forall|x: Seq<char>| ids_of(edited@).contains(x) <==> is_edited(it.take(i + 1), x) by {
                            let t = it.take(i + 1);
                            assert(t[i as int] == *item);
                            assert(t[j] == it[j]);
                            if ids_of(edited@).contains(x) && x != m.id@ {
                                let k = choose|k: int| 0 <= k < ids_of(edited@).len() && ids_of(edited@)[k] == x;
                                assert(ed_before.contains(x));
                                lemma_edited_prefix(it, i as int, x);
                            }
                            if is_edited(t, x) {
                                lemma_edited_last(it, i as int, x);
                            }
                        }
                    }
                } else {
                    let ghost sb = seen@;
                    seen.push(key);
                    proof {
                        assert(seen_keys(seen@) =~= sv_before.push(opt_view(key)));
                        lemma_push_keeps_opt(sv_before, opt_view(key));
                        assert(user_parent_key(it[i as int]) == Some(opt_view(key)));
                        assert forall|key2: Option<Seq<char>>| #[trigger] seen_keys(seen@).contains(key2) <==> exists|j: int| 0 <= j < i + 1 && #[trigger] user_parent_key(it[j]) == Some(key2) by {
                            let sv = seen_keys(seen@);
                            if sv.contains(key2) {
                                if key2 == opt_view(key) {
                                    assert(user_parent_key(it[i as int]) == Some(key2));
                                } else {
                                    let q = choose|q: int| 0 <= q < sv.len() && sv[q] == key2;
                                    assert(sv_before[q] == key2);
                                    assert(sv_before.contains(key2));
                                    let j = choose|j: int| 0 <= j < i && #[trigger] user_parent_key(it[j]) == Some(key2);
                                    assert(user_parent_key(it[j]) == Some(key2));
                                }
                            }
                            if exists|j: int| 0 <= j < i + 1 && #[trigger] user_parent_key(it[j]) == Some(key2) {
                                let j = choose|j: int| 0 <= j < i + 1 && #[trigger] user_parent_key(it[j]) == Some(key2);
                                if j == i {
                                    assert(key2 == opt_view(key));
                                } else {
                                    assert(sv_before.contains(key2));
                                }
                            }
                        }
                        assert forall|x: Seq<char>| ids_of(edited@).contains(x) <==> is_edited(it.take(i + 1), x) by {
                            if ids_of(edited@).contains(x) {
                                lemma_edited_prefix(it, i as int, x);
                            }
                            if is_edited(it.take(i + 1), x) {
                                lemma_edited_last(it, i as int, x);
                            }
                        }
                    }
                }
            } else {
                proof { lemma_edited_unchanged(it, i as int); }
            }
        } else {
            proof { lemma_edited_unchanged(it, i as int); }
        }
        i = i + 1;
    }
    assert(it.take(items.len() as int) =~= it);
    edited
}

proof fn lemma_push_keeps_opt(s: Seq<Option<Seq<char>>>, x: Option<Seq<char>>)
    ensures
        forall|y: Option<Seq<char>>| s.contains(y) ==> #[trigger] s.push(x).contains(y),
        s.push(x).contains(x),
{
    assert forall|y: Option<Seq<char>>| s.contains(y) implies #[trigger] s.push(x).contains(y) by {
        let j = choose|j: int| 0 <= j < s.len() && s[j] == y;
        assert(s.push(x)[j] == y);
    }
    assert(s.push(x)[s.len() as int] == x);
}

proof fn lemma_edited_prefix(it: Seq<ChatItem>, i: int, x: Seq<char>)
    requires
        0 <= i < it.len(),
        is_edited(it.take(i), x),
    ensures
        is_edited(it.take(i + 1), x),
{
    let (a, b) = choose|a: int, b: int|
        0 <= b < a < it.take(i).len() && #[trigger] user_parent_key(it.take(i)[a]) is Some && item_id(it.take(i)[a]) == x
            && #[trigger] user_parent_key(it.take(i)[b]) == user_parent_key(it.take(i)[a]);
    assert(it.take(i + 1)[a] == it.take(i)[a]);
    assert(it.take(i + 1)[b] == it.take(i)[b]);
}

proof fn lemma_edited_last(it: Seq<ChatItem>, i: int, x: Seq<char>)
    requires
        0 <= i < it.len(),
        is_edited(it.take(i + 1), x),
    ensures
        is_edited(it.take(i), x) || (user_parent_key(it[i]) is Some && item_id(it[i]) == x
            && exists|j: int| 0 <= j < i && #[trigger] user_parent_key(it[j]) == user_parent_key(it[i])),
{
    let t = it.take(i + 1);
    let (a, b) = choose|a: int, b: int|
        0 <= b < a < t.len() && #[trigger] user_parent_key(t[a]) is Some && item_id(t[a]) == x
            && #[trigger] user_parent_key(t[b]) == user_parent_key(t[a]);
    assert(t[b] == it[b]);
    assert(t[a] == it[a]);
    if a < i {
        assert(it.take(i)[a] == it[a]);
        assert(it.take(i)[b] == it[b]);
    }
}

proof fn lemma_edited_unchanged(it: Seq<ChatItem>, i: int)
    requires
        0 <= i < it.len(),
        user_parent_key(it[i]) is None,
    ensures
        forall|x: Seq<char>| is_edited(it.take(i + 1), x) <==> is_edited(it.take(i), x),
{
    assert forall|x: Seq<char>| is_edited(it.take(i + 1), x) <==> is_edited(it.take(i), x) by {
        if is_edited(it.take(i), x) {
            lemma_edited_prefix(it, i, x);
        }
        if is_edited(it.take(i + 1), x) {
            lemma_edited_last(it, i, x);
        }
    }
}


/// The lineage of a message holds the parent of each of its messages, so it
/// can stand as the start of the visible history.
pub proof fn law_lineage_is_parent_closed(store: ChatStore, active: Seq<char>, x: Seq<char>)
    requires
        in_lineage(store, active, x),
        store.parent_of(x) is Some,
    ensures
        in_lineage(store, active, store.parent_of(x)->0),
{
    let k = choose|k: nat| follow_parents(store, Some(active), k) == Some(x);
    assert(follow_parents(store, Some(active), k + 1) == store.parent_of(x));
}

/// A set whose every member is in the lineage, and that holds the whole
/// lineage, is parent-closed.
pub proof fn lemma_lineage_set_parent_closed(store: ChatStore, active: Seq<char>, set: Seq<Seq<char>>)
    requires
        forall|x: Seq<char>| set.contains(x) <==> in_lineage(store, active, x),
    ensures
        parent_closed(store, set),
{
    assert forall|i: int| 0 <= i < set.len() implies (store.parent_of(#[trigger] set[i]) matches Some(p) ==> set.contains(p)) by {
        if store.parent_of(set[i]) is Some {
            assert(set.contains(set[i]));
            law_lineage_is_parent_closed(store, active, set[i]);
        }
    }
}

/// Without compaction summaries along the way, the visible history of a
/// lineage is the lineage itself.
pub proof fn law_history_without_summaries_is_the_lineage(store: ChatStore, start: Seq<Seq<char>>, x: Seq<char>)
    requires
        parent_closed(store, start),
        forall|i: int| 0 <= i < start.len() ==> store.head_of(#[trigger] start[i]) is None,
    ensures
        in_history(store, |y: Seq<char>| start.contains(y), x) <==> start.contains(x),
{
    let st = |y: Seq<char>| start.contains(y);
    if in_history(store, st, x) {
        let path = choose|path: Seq<Seq<char>>| #[trigger] is_path(store, st, path) && path.last() == x;
        assert forall|i: int| 0 <= i < start.len() implies (store.head_of(#[trigger] start[i]) matches Some(h) ==> start.contains(h)) by {}
        lemma_path_within(store, st, start, path, path.len() - 1);
    }
    if start.contains(x) {
        lemma_history_start(store, st, x);
    }
}

/// The messages shown for a branch whose tip is `a`: the history of `a`'s lineage.
/// Without compaction heads on any message of a parent-closed lineage, the
/// visible message set (any set holding exactly the history of the lineage,
/// as [`build_visible_message_set`] gives it) is the lineage itself.
pub proof fn law_visible_set_without_heads_is_the_lineage(
    store: ChatStore,
    lineage: Seq<Seq<char>>,
    visible: Seq<Seq<char>>,
)
    requires
        parent_closed(store, lineage),
        forall|i: int| 0 <= i < lineage.len() ==> store.head_of(#[trigger] lineage[i]) is None,
        forall|x: Seq<char>| visible.contains(x) <==> in_history(store, |y: Seq<char>| lineage.contains(y), x),
    ensures
        forall|x: Seq<char>| visible.contains(x) <==> lineage.contains(x),
{
    assert forall|x: Seq<char>| visible.contains(x) <==> lineage.contains(x) by {
        law_history_without_summaries_is_the_lineage(store, lineage, x);
    }
}

pub open spec fn in_branch(store: ChatStore, a: Seq<char>, x: Seq<char>) -> bool {
    in_history(store, |y: Seq<char>| in_lineage(store, a, y), x)
}

proof fn lemma_item_visible_same(store: ChatStore, v1: Seq<Seq<char>>, v2: spec_fn(Seq<char>) -> bool, cur: Option<Seq<char>>, fuel: nat)
    requires
        forall|x: Seq<char>| v1.contains(x) <==> #[trigger] v2(x),
    ensures
        attached_visible(store, v1, cur, fuel) == attached_visible_by(store, v2, cur, fuel),
    decreases fuel,
{
    if fuel > 0 {
        if let Some(p) = cur {
            if !v1.contains(p) {
                if let Some(it) = store.lookup(p) {
                    lemma_item_visible_same(store, v1, v2, opt_view(it.parent_chat_item_id), (fuel - 1) as nat);
                }
            }
        }
    }
}

/// [`attached_visible`] with the visible set given by a predicate.
pub open spec fn attached_visible_by(store: ChatStore, vis: spec_fn(Seq<char>) -> bool, cur: Option<Seq<char>>, fuel: nat) -> bool
    decreases fuel,
{
    if fuel == 0 {
        false
    } else {
        match cur {
            None => false,
            Some(p) => if vis(p) {
                true
            } else {
                match store.lookup(p) {
                    None => false,
                    Some(it) => match it.data {
                        ChatItemData::Message(_) => false,
                        _ => attached_visible_by(store, vis, opt_view(it.parent_chat_item_id), (fuel - 1) as nat),
                    },
                }
            },
        }
    }
}

/// [`item_visible`] with the visible set given by a predicate.
pub open spec fn item_visible_by(store: ChatStore, vis: spec_fn(Seq<char>) -> bool, item: ChatItem) -> bool {
    match item.data {
        ChatItemData::Message(m) => vis(m.id@),
        _ => match item.parent_chat_item_id {
            None => true,
            Some(p) => attached_visible_by(store, vis, Some(p@), (store.items_view().len() + 1) as nat),
        },
    }
}

/// The indices `0..n`.
pub open spec fn index_range(n: nat) -> Seq<int> {
    Seq::new(n, |i: int| i)
}

pub open spec fn indices_view(v: Seq<usize>) -> Seq<int> {
    v.map_values(|k: usize| k as int)
}

/// The positions of the items shown for the store's active branch, in
/// order: every item when no message is active; otherwise the items
/// visible for the branch of the active message.
pub fn visible_item_indices(chat_store: &ChatStore) -> (idx: Vec<usize>)
    requires
        chat_store.items_view().len() < usize::MAX,
    ensures
        chat_store.active_view() is None ==> indices_view(idx@) == index_range(
            chat_store.items_view().len(),
        ),
        chat_store.active_view() matches Some(a) ==> indices_view(idx@) == index_range(
            chat_store.items_view().len(),
        ).filter(
            |i: int|
                item_visible_by(
                    *chat_store,
                    |x: Seq<char>| in_branch(*chat_store, a, x),
                    chat_store.items_view()[i],
                ),
        ),
{
    let all = chat_store.items();
    let n = all.len();
    match chat_store.active_message_id() {
        None => {
            let mut out: Vec<usize> = Vec::new();
            let mut i: usize = 0;
            while i < n
                invariant
                    i <= n,
                    indices_view(out@) == index_range(i as nat),
                decreases n - i,
            {
                let ghost before = out@;
                out.push(i);
                assert(indices_view(out@) =~= indices_view(before).push(i as int));
                i = i + 1;
                assert(indices_view(out@) =~= index_range(i as nat));
            }
            out
        },
        Some(active) => {
            let ghost store = *chat_store;
            let ghost a = active@;
            let lineage = build_lineage_set(active, chat_store);
            proof {
                lemma_lineage_set_parent_closed(store, a, ids_of(lineage@));
                assert((|y: Seq<char>| ids_of(lineage@).contains(y)) =~= (|y: Seq<char>| in_lineage(store, a, y)));
            }
            let visible = build_visible_message_set(&lineage, chat_store);
            let ghost br = |x: Seq<char>| in_branch(store, a, x);
            let ghost pred = |i: int| item_visible_by(store, br, store.items_view()[i]);
            proof {
                assert forall|x: Seq<char>| ids_of(visible@).contains(x) <==> #[trigger] br(x) by {}
            }
            let mut out: Vec<usize> = Vec::new();
            let mut i: usize = 0;
            while i < n
                invariant
                    i <= n,
                    n == all@.len(),
                    store == *chat_store,
                    all@ == store.items_view(),
                    store.items_view().len() < usize::MAX,
                    forall|x: Seq<char>| ids_of(visible@).contains(x) <==> #[trigger] br(x),
                    br == (|x: Seq<char>| in_branch(store, a, x)),
                    pred == (|i: int| item_visible_by(store, br, store.items_view()[i])),
                    indices_view(out@) == index_range(i as nat).filter(pred),
                decreases n - i,
            {
                let ghost item = all@[i as int];
                proof {
                    match item.parent_chat_item_id {
                        Some(p) => lemma_item_visible_same(store, ids_of(visible@), br, Some(p@), (store.items_view().len() + 1) as nat),
                        None => {},
                    }
                }
                let keep = is_visible(&all[i], &visible, chat_store);
                assert(keep == pred(i as int));
                proof {
                    reveal_with_fuel(Seq::filter, 1);
                    assert(index_range((i + 1) as nat).drop_last() =~= index_range(i as nat));
                    assert(index_range((i + 1) as nat).last() == i as int);
                }
                let ghost before = out@;
                if keep {
                    out.push(i);
                    assert(indices_view(out@) =~= indices_view(before).push(i as int));
                }
                i = i + 1;
            }
            proof {
                assert(pred =~= (|i: int| item_visible_by(*chat_store, |x: Seq<char>| in_branch(*chat_store, active@, x), chat_store.items_view()[i])));
            }
            out
        },
    }
}

} // verus!
