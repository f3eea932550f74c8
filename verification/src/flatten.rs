//! Flattening the chat items shown into the entries of the chat list, one
//! widget each: message text, tool calls coupled with their results, and
//! other items as they are.

use vstd::prelude::*;
use crate::chat_store::{ChatItem, ChatItemData, ChatStore, MessageData, ToolCall, item_id};
use crate::branch::{contains_id, ids_of};
use crate::text::{decimal, push_str, u64_to_decimal};

verus! {

/// One entry of the chat list; `source` is the position of the chat item
/// it shows.
pub enum FlatEntry {
    /// The text of a message.
    MessageText {
        source: usize,
        id: String,
        is_edited: bool,
        is_editing: bool,
        is_compaction_summary: bool,
    },
    /// A tool call: the `call`-th call of the assistant message at `source`
    /// (or, with no `call`, the pending tool call at `source`), with the
    /// position of the message holding its result, if there is one.
    ToolInteraction { source: usize, call: Option<usize>, result: Option<usize>, id: String },
    /// Any other item.
    Meta { source: usize, id: String },
}

/// The plain values of a [`FlatEntry`].
pub enum FlatModel {
    MessageText(int, Seq<char>, bool, bool, bool),
    ToolInteraction(int, Option<int>, Option<int>, Seq<char>),
    Meta(int, Seq<char>),
}

pub open spec fn flat_model(e: FlatEntry) -> FlatModel {
    match e {
        FlatEntry::MessageText { source, id, is_edited, is_editing, is_compaction_summary } =>
            FlatModel::MessageText(source as int, id@, is_edited, is_editing, is_compaction_summary),
        FlatEntry::ToolInteraction { source, call, result, id } => FlatModel::ToolInteraction(
            source as int,
            match call {
                Some(c) => Some(c as int),
                None => None,
            },
            match result {
                Some(r) => Some(r as int),
                None => None,
            },
            id@,
        ),
        FlatEntry::Meta { source, id } => FlatModel::Meta(source as int, id@),
    }
}

pub open spec fn flat_models(v: Seq<FlatEntry>) -> Seq<FlatModel> {
    v.map_values(|e: FlatEntry| flat_model(e))
}

impl FlatEntry {
    pub open spec fn entry_id(&self) -> Seq<char> {
        match *self {
            FlatEntry::MessageText { id, .. } => id@,
            FlatEntry::ToolInteraction { id, .. } => id@,
            FlatEntry::Meta { id, .. } => id@,
        }
    }

    /// The id of the entry.
    pub fn id(&self) -> (r: &String)
        ensures
            r@ == self.entry_id(),
    {
        match self {
            FlatEntry::MessageText { id, .. } => id,
            FlatEntry::ToolInteraction { id, .. } => id,
            FlatEntry::Meta { id, .. } => id,
        }
    }

    /// Whether the entry shows a message or a tool call; spacing follows
    /// only these.
    pub fn is_message(&self) -> (b: bool)
        ensures
            b == !(*self is Meta),
    {
        match self {
            FlatEntry::MessageText { .. } => true,
            FlatEntry::ToolInteraction { .. } => true,
            FlatEntry::Meta { .. } => false,
        }
    }
}

/// Where the result of each tool call is, by the call's id: the last tool
/// message for it among the items at positions `raw`.
pub open spec fn tool_results(items: Seq<ChatItem>, raw: Seq<usize>) -> Map<Seq<char>, int>
    decreases raw.len(),
{
    if raw.len() == 0 {
        Map::empty()
    } else {
        let m = tool_results(items, raw.drop_last());
        let k = raw.last();
        match items[k as int].data {
            ChatItemData::Message(row) => match row.data {
                MessageData::Tool { tool_use_id, .. } => m.insert(tool_use_id@, k as int),
                _ => m,
            },
            _ => m,
        }
    }
}

/// The entries for the tool calls `calls[j..]` of the assistant message
/// `row_id` at position `src`, and the results left afterwards: a call
/// whose result is known gets an entry, and its result is used up.
pub open spec fn call_entries(
    row_id: Seq<char>,
    src: int,
    calls: Seq<ToolCall>,
    j: int,
    m: Map<Seq<char>, int>,
) -> (Seq<FlatModel>, Map<Seq<char>, int>)
    decreases calls.len() - j,
{
    if j < 0 || j >= calls.len() {
        (Seq::empty(), m)
    } else {
        let cid = calls[j].id@;
        if m.contains_key(cid) {
            let e = FlatModel::ToolInteraction(
                src,
                Some(j),
                Some(m[cid]),
                row_id + "_tool_"@ + decimal(j as nat),
            );
            let rest = call_entries(row_id, src, calls, j + 1, m.remove(cid));
            (seq![e] + rest.0, rest.1)
        } else {
            call_entries(row_id, src, calls, j + 1, m)
        }
    }
}

/// The entries for the items at positions `raw[pos..]`, given the tool
/// results not used up yet.
pub open spec fn flatten_from(
    store: ChatStore,
    raw: Seq<usize>,
    edited: Seq<Seq<char>>,
    editing: Option<Seq<char>>,
    pos: int,
    m: Map<Seq<char>, int>,
) -> Seq<FlatModel>
    decreases raw.len() - pos,
{
    if pos < 0 || pos >= raw.len() {
        Seq::empty()
    } else {
        let src = raw[pos] as int;
        let item = store.items_view()[src];
        match item.data {
            ChatItemData::Message(row) => match row.data {
                MessageData::Assistant { content, tool_calls } => {
                    let text = if crate::chat_store::shows_text(content@) {
                        seq![
                            FlatModel::MessageText(
                                src,
                                row.id@ + "_text"@,
                                false,
                                false,
                                store.summary_marked(row.id@),
                            ),
                        ]
                    } else {
                        Seq::empty()
                    };
                    let calls = call_entries(row.id@, src, tool_calls@, 0, m);
                    text + calls.0 + flatten_from(store, raw, edited, editing, pos + 1, calls.1)
                },
                MessageData::Tool { .. } => flatten_from(store, raw, edited, editing, pos + 1, m),
                MessageData::User => seq![
                    FlatModel::MessageText(
                        src,
                        row.id@,
                        edited.contains(row.id@),
                        editing == Some(row.id@),
                        false,
                    ),
                ] + flatten_from(store, raw, edited, editing, pos + 1, m),
            },
            ChatItemData::PendingToolCall { id, .. } => seq![
                FlatModel::ToolInteraction(src, None, None, id@),
            ] + flatten_from(store, raw, edited, editing, pos + 1, m),
            _ => seq![FlatModel::Meta(src, item_id(item))] + flatten_from(
                store,
                raw,
                edited,
                editing,
                pos + 1,
                m,
            ),
        }
    }
}

/// The list entries for the items at positions `raw`.
pub open spec fn flattened(
    store: ChatStore,
    raw: Seq<usize>,
    edited: Seq<Seq<char>>,
    editing: Option<Seq<char>>,
) -> Seq<FlatModel> {
    flatten_from(store, raw, edited, editing, 0, tool_results(store.items_view(), raw))
}

/// A table from tool call ids to positions, kept as pairs with distinct keys.
pub open spec fn table_agrees(v: Seq<(String, usize)>, m: Map<Seq<char>, int>) -> bool {
    &&& forall|i: int, j: int| 0 <= i < j < v.len() ==> (#[trigger] v[i]).0@ != (#[trigger] v[j]).0@
    &&& forall|i: int| 0 <= i < v.len() ==> m.contains_key((#[trigger] v[i]).0@) && m[v[i].0@]
        == v[i].1 as int
    &&& forall|k: Seq<char>| #[trigger] m.contains_key(k) ==> exists|i: int| 0 <= i < v.len() && (#[trigger] v[i]).0@ == k
}

fn table_find(v: &Vec<(String, usize)>, key: &String) -> (r: Option<usize>)
    ensures
        match r {
            Some(i) => i < v.len() && v@[i as int].0@ == key@,
            None => forall|i: int| 0 <= i < v.len() ==> (#[trigger] v@[i]).0@ != key@,
        },
{
    let mut i: usize = 0;
    while i < v.len()
        invariant
            i <= v.len(),
            forall|j: int| 0 <= j < i ==> (#[trigger] v@[j]).0@ != key@,
        decreases v.len() - i,
    {
        if v[i].0 == *key {
            return Some(i);
        }
        i = i + 1;
    }
    None
}

fn table_insert(v: &mut Vec<(String, usize)>, key: String, value: usize, Ghost(m): Ghost<Map<Seq<char>, int>>)
    requires
        table_agrees(old(v)@, m),
    ensures
        table_agrees(final(v)@, m.insert(key@, value as int)),
{
    match table_find(v, &key) {
        Some(i) => {
            let ghost old_v = v@;
            v.set(i, (key, value));
            let ghost mm = m.insert(key@, value as int);
            assert forall|k: Seq<char>| #[trigger] mm.contains_key(k) implies exists|j: int| 0 <= j < v@.len() && (#[trigger] v@[j]).0@ == k by {
                if k == key@ {
                    assert(v@[i as int].0@ == k);
                } else {
                    let j = choose|j: int| 0 <= j < old_v.len() && (#[trigger] old_v[j]).0@ == k;
                    assert(v@[j].0@ == k);
                }
            }
        },
        None => {
            let ghost old_v = v@;
            v.push((key, value));
            let ghost mm = m.insert(key@, value as int);
            assert forall|k: Seq<char>| #[trigger] mm.contains_key(k) implies exists|j: int| 0 <= j < v@.len() && (#[trigger] v@[j]).0@ == k by {
                if k == key@ {
                    assert(v@[old_v.len() as int].0@ == k);
                } else {
                    let j = choose|j: int| 0 <= j < old_v.len() && (#[trigger] old_v[j]).0@ == k;
                    assert(v@[j].0@ == k);
                }
            }
        },
    }
}

fn table_take(v: &mut Vec<(String, usize)>, key: &String, Ghost(m): Ghost<Map<Seq<char>, int>>) -> (r: Option<usize>)
    requires
        table_agrees(old(v)@, m),
    ensures
        m.contains_key(key@) ==> r == Some(m[key@] as usize) && table_agrees(final(v)@, m.remove(key@)),
        !m.contains_key(key@) ==> r is None && final(v)@ == old(v)@,
{
    match table_find(v, key) {
        Some(i) => {
            let ghost old_v = v@;
            let (_, value) = v.remove(i);
            let ghost mm = m.remove(key@);
            assert forall|a: int, b: int| 0 <= a < b < v@.len() implies (#[trigger] v@[a]).0@ != (#[trigger] v@[b]).0@ by {
                let a0 = if a < i { a } else { a + 1 };
                let b0 = if b < i { b } else { b + 1 };
                assert(v@[a] == old_v[a0] && v@[b] == old_v[b0]);
            }
            assert forall|a: int| 0 <= a < v@.len() implies mm.contains_key((#[trigger] v@[a]).0@) && mm[v@[a].0@] == v@[a].1 as int by {
                let a0 = if a < i { a } else { a + 1 };
                assert(v@[a] == old_v[a0]);
            }
            assert forall|k: Seq<char>| #[trigger] mm.contains_key(k) implies exists|j: int| 0 <= j < v@.len() && (#[trigger] v@[j]).0@ == k by {
                let j = choose|j: int| 0 <= j < old_v.len() && (#[trigger] old_v[j]).0@ == k;
                assert(j != i);
                let j1 = if j < i { j } else { j - 1 };
                assert(v@[j1] == old_v[j]);
            }
            Some(value)
        },
        None => {
            proof {
                if m.contains_key(key@) {
                    let j = choose|j: int| 0 <= j < v@.len() && (#[trigger] v@[j]).0@ == key@;
                }
            }
            None
        },
    }
}

fn item_at<'a>(store: &'a ChatStore, k: usize) -> (r: &'a ChatItem)
    requires
        k < store.items_view().len(),
    ensures
        *r == store.items_view()[k as int],
{
    &store.items()[k]
}

fn with_suffix(id: &String, suffix: &str) -> (r: String)
    ensures
        r@ == id@ + suffix@,
{
    let mut r = id.clone();
    push_str(&mut r, suffix);
    r
}

/// Flattens the chat items at positions `raw` into list entries: a user
/// message is one text entry (marked when it was edited or is being
/// edited); an assistant message gives a text entry when it shows text
/// and one entry per tool call whose result is among the items (the
/// last such result, each result used once); tool results give no entry
/// of their own; a pending tool call gives an entry without result; and
/// every other item gives one entry.
pub fn flatten_items(
    store: &ChatStore,
    raw: &Vec<usize>,
    edited_message_ids: &Vec<String>,
    editing_message_id: Option<&str>,
) -> (r: Vec<FlatEntry>)
    requires
        forall|i: int| 0 <= i < raw.len() ==> (#[trigger] raw@[i]) < store.items_view().len(),
    ensures
        flat_models(r@) == flattened(
            *store,
            raw@,
            ids_of(edited_message_ids@),
            match editing_message_id {
                Some(e) => Some(e@),
                None => None,
            },
        ),
{
    let ghost items = store.items_view();
    let ghost editing = match editing_message_id {
        Some(e) => Some(e@),
        None => None::<Seq<char>>,
    };
    let ghost edited = ids_of(edited_message_ids@);
    let mut table: Vec<(String, usize)> = Vec::new();
    let ghost mut m: Map<Seq<char>, int> = Map::empty();
    let mut p: usize = 0;
    assert(raw@.take(0) =~= Seq::<usize>::empty());
    while p < raw.len()
        invariant
            p <= raw.len(),
            items == store.items_view(),
            forall|i: int| 0 <= i < raw.len() ==> (#[trigger] raw@[i]) < items.len(),
            m == tool_results(items, raw@.take(p as int)),
            table_agrees(table@, m),
        decreases raw.len() - p,
    {
        let k = raw[p];
        assert(raw@.take(p + 1).drop_last() =~= raw@.take(p as int));
        let item = item_at(store, k);
        if let ChatItemData::Message(row) = &item.data {
            if let MessageData::Tool { tool_use_id, .. } = &row.data {
                table_insert(&mut table, tool_use_id.clone(), k, Ghost(m));
                proof {
                    m = m.insert(tool_use_id@, k as int);
                }
            }
        }
        p = p + 1;
    }
    assert(raw@.take(raw.len() as int) =~= raw@);
    let mut out: Vec<FlatEntry> = Vec::new();
    let ghost mut done: Seq<FlatModel> = Seq::empty();
    let mut pos: usize = 0;
    while pos < raw.len()
        invariant
            pos <= raw.len(),
            items == store.items_view(),
            forall|i: int| 0 <= i < raw.len() ==> (#[trigger] raw@[i]) < items.len(),
            table_agrees(table@, m),
            flat_models(out@) == done,
            done + flatten_from(*store, raw@, edited, editing, pos as int, m) == flattened(
                *store,
                raw@,
                edited,
                editing,
            ),
            edited == ids_of(edited_message_ids@),
            editing == match editing_message_id {
                Some(e) => Some(e@),
                None => None::<Seq<char>>,
            },
        decreases raw.len() - pos,
    {
        let src = raw[pos];
        let item = item_at(store, src);
        match &item.data {
            ChatItemData::Message(row) => match &row.data {
                MessageData::Assistant { content, tool_calls } => {
                    let ghost m0 = m;
                    let ghost start = done;
                    if crate::chat_store::assistant_shows_text(content) {
                        let summary = store.is_compaction_summary(&row.id);
                        out.push(
                            FlatEntry::MessageText {
                                source: src,
                                id: with_suffix(&row.id, "_text"),
                                is_edited: false,
                                is_editing: false,
                                is_compaction_summary: summary,
                            },
                        );
                        proof {
                            let e = FlatModel::MessageText(
                                src as int,
                                row.id@ + "_text"@,
                                false,
                                false,
                                store.summary_marked(row.id@),
                            );
                            assert(flat_models(out@) =~= done.push(e));
                            done = done.push(e);
                        }
                    }
                    let ghost after_text = done;
                    let mut j: usize = 0;
                    while j < tool_calls.len()
                        invariant
                            j <= tool_calls.len(),
                            table_agrees(table@, m),
                            flat_models(out@) == done,
                            done + call_entries(row.id@, src as int, tool_calls@, j as int, m).0
                                == after_text + call_entries(
                                row.id@,
                                src as int,
                                tool_calls@,
                                0,
                                m0,
                            ).0,
                            call_entries(row.id@, src as int, tool_calls@, j as int, m).1
                                == call_entries(row.id@, src as int, tool_calls@, 0, m0).1,
                        decreases tool_calls.len() - j,
                    {
                        let call = &tool_calls[j];
                        let found = table_take(&mut table, &call.id, Ghost(m));
                        match found {
                            Some(result) => {
                                let mut id = with_suffix(&row.id, "_tool_");
                                push_str(&mut id, u64_to_decimal(j as u64).as_str());
                                out.push(
                                    FlatEntry::ToolInteraction {
                                        source: src,
                                        call: Some(j),
                                        result: Some(result),
                                        id,
                                    },
                                );
                                proof {
                                    let e = FlatModel::ToolInteraction(
                                        src as int,
                                        Some(j as int),
                                        Some(m[call.id@]),
                                        row.id@ + "_tool_"@ + decimal(j as nat),
                                    );
                                    assert(flat_models(out@) =~= done.push(e));
                                    done = done.push(e);
                                    m = m.remove(call.id@);
                                }
                            },
                            None => {},
                        }
                        j = j + 1;
                    }
                    proof {
                        assert(call_entries(row.id@, src as int, tool_calls@, j as int, m).0
                            =~= Seq::<FlatModel>::empty());
                    }
                },
                MessageData::Tool { .. } => {},
                MessageData::User => {
                    let is_edited = contains_id(edited_message_ids, &row.id);
                    let is_editing = match editing_message_id {
                        Some(e) => e.to_owned() == row.id,
                        None => false,
                    };
                    out.push(
                        FlatEntry::MessageText {
                            source: src,
                            id: row.id.clone(),
                            is_edited,
                            is_editing,
                            is_compaction_summary: false,
                        },
                    );
                    proof {
                        let e = FlatModel::MessageText(
                            src as int,
                            row.id@,
                            edited.contains(row.id@),
                            editing == Some(row.id@),
                            false,
                        );
                        assert(flat_models(out@) =~= done.push(e));
                        done = done.push(e);
                    }
                },
            },
            ChatItemData::PendingToolCall { id, .. } => {
                out.push(FlatEntry::ToolInteraction { source: src, call: None, result: None, id: id.clone() });
                proof {
                    let e = FlatModel::ToolInteraction(src as int, None, None, id@);
                    assert(flat_models(out@) =~= done.push(e));
                    done = done.push(e);
                }
            },
            _ => {
                out.push(FlatEntry::Meta { source: src, id: item.id().clone() });
                proof {
                    let e = FlatModel::Meta(src as int, item_id(*item));
                    assert(flat_models(out@) =~= done.push(e));
                    done = done.push(e);
                }
            },
        }
        pos = pos + 1;
    }
    assert(done =~= flattened(*store, raw@, edited, editing));
    out
}

} // verus!
