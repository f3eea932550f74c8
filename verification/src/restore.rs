//! Restoring a saved conversation into the chat store.

use vstd::prelude::*;
use crate::chat_store::{ChatItem, ChatItemData, ChatStore, MessageRow, find_from, item_id, opt_view};
use crate::branch::{contains_id, ids_of};

verus! {

/// A message as a root-level chat item.
pub open spec fn message_item(m: MessageRow) -> ChatItem {
    ChatItem { parent_chat_item_id: None, data: ChatItemData::Message(m) }
}

/// The items after adding the messages `ms` in order, each replacing an
/// item with its id or else coming last.
pub open spec fn ingested(items: Seq<ChatItem>, ms: Seq<MessageRow>) -> Seq<ChatItem>
    decreases ms.len(),
{
    if ms.len() == 0 {
        items
    } else {
        let prev = ingested(items, ms.drop_last());
        let it = message_item(ms.last());
        match find_from(prev, item_id(it), 0) {
            Some(k) => prev.update(k, it),
            None => prev.push(it),
        }
    }
}

/// The head restored for summary `x` from the first `n` messages: the
/// message just before the last of them that is `x`, when `x` is one of
/// the summaries `ids`.
pub open spec fn restored_head(ms: Seq<MessageRow>, ids: Seq<Seq<char>>, x: Seq<char>, n: int) -> Option<Seq<char>>
    decreases n,
{
    if n <= 1 {
        None
    } else if ids.contains(x) && ms[n - 1].id@ == x {
        Some(ms[n - 2].id@)
    } else {
        restored_head(ms, ids, x, n - 1)
    }
}

/// Restores the messages of a saved conversation: the given summaries are
/// marked, each summary's compacted head is the message saved just before
/// it, the messages are added in order, and the last one becomes active.
pub fn restore_messages(store: &mut ChatStore, messages: Vec<MessageRow>, compaction_summary_ids: &Vec<String>)
    ensures
        final(store).items_view() == ingested(old(store).items_view(), messages@),
        final(store).active_view() == if messages@.len() > 0 {
            Some(messages@.last().id@)
        } else {
            old(store).active_view()
        },
        forall|x: Seq<char>| #[trigger] final(store).summary_marked(x) == (old(store).summary_marked(x)
            || ids_of(compaction_summary_ids@).contains(x)),
        forall|x: Seq<char>| #[trigger] final(store).head_of(x) == match restored_head(
            messages@,
            ids_of(compaction_summary_ids@),
            x,
            messages@.len() as int,
        ) {
            Some(h) => Some(h),
            None => old(store).head_of(x),
        },
{
    let ghost ids = ids_of(compaction_summary_ids@);
    let ghost s0 = *store;
    let mut i: usize = 0;
    while i < compaction_summary_ids.len()
        invariant
            i <= compaction_summary_ids.len(),
            ids == ids_of(compaction_summary_ids@),
            store.items_view() == s0.items_view(),
            store.active_view() == s0.active_view(),
            forall|x: Seq<char>| #[trigger] store.summary_marked(x) == (s0.summary_marked(x)
                || ids.take(i as int).contains(x)),
            forall|x: Seq<char>| #[trigger] store.head_of(x) == s0.head_of(x),
        decreases compaction_summary_ids.len() - i,
    {
        let id = compaction_summary_ids[i].clone();
        let ghost before = *store;
        store.mark_compaction_summary(id);
        proof {
            assert(ids.take(i + 1) =~= ids.take(i as int).push(ids[i as int]));
            assert forall|x: Seq<char>| #[trigger] store.summary_marked(x) == (s0.summary_marked(x)
                || ids.take(i + 1).contains(x)) by {
                if x == ids[i as int] {
                    assert(ids.take(i + 1)[i as int] == x);
                } else {
                    assert(before.summary_marked(x) == store.summary_marked(x));
                    if ids.take(i + 1).contains(x) {
                        let j = choose|j: int| 0 <= j < i + 1 && #[trigger] ids.take(i + 1)[j] == x;
                        assert(ids.take(i as int)[j] == x);
                    }
                }
            }
        }
        i = i + 1;
    }
    assert(ids.take(compaction_summary_ids.len() as int) =~= ids);
    let mut k: usize = 0;
    while k < messages.len()
        invariant
            k <= messages.len(),
            ids == ids_of(compaction_summary_ids@),
            store.items_view() == s0.items_view(),
            store.active_view() == s0.active_view(),
            forall|x: Seq<char>| #[trigger] store.summary_marked(x) == (s0.summary_marked(x)
                || ids.contains(x)),
            forall|x: Seq<char>| #[trigger] store.head_of(x) == match restored_head(messages@, ids, x, k as int) {
                Some(h) => Some(h),
                None => s0.head_of(x),
            },
        decreases messages.len() - k,
    {
        let ghost before = *store;
        if k >= 1 && contains_id(compaction_summary_ids, &messages[k].id) {
            let id = messages[k].id.clone();
            let head = messages[k - 1].id.clone();
            store.mark_compaction_summary_with_head(id, Some(head));
            proof {
                assert forall|x: Seq<char>| #[trigger] store.summary_marked(x) == (s0.summary_marked(x)
                    || ids.contains(x)) by {
                    if x != messages@[k as int].id@ {
                        assert(before.summary_marked(x) == store.summary_marked(x));
                    }
                }
                assert forall|x: Seq<char>| #[trigger] store.head_of(x) == match restored_head(messages@, ids, x, k + 1) {
                    Some(h) => Some(h),
                    None => s0.head_of(x),
                } by {
                    if x != messages@[k as int].id@ {
                        assert(before.head_of(x) == store.head_of(x));
                    }
                }
            }
        } else {
            proof {
                assert forall|x: Seq<char>| #[trigger] store.head_of(x) == match restored_head(messages@, ids, x, k + 1) {
                    Some(h) => Some(h),
                    None => s0.head_of(x),
                } by {
                    assert(before.head_of(x) == store.head_of(x));
                }
            }
        }
        k = k + 1;
    }
    let last_id = if messages.len() > 0 {
        Some(messages[messages.len() - 1].id.clone())
    } else {
        None
    };
    let ghost orig = messages@;
    let ghost s1 = *store;
    let mut rest = messages;
    let ghost mut j: int = 0;
    assert(orig.take(0) =~= Seq::<MessageRow>::empty());
    assert(orig.skip(0) =~= orig);
    while rest.len() > 0
        invariant
            0 <= j <= orig.len(),
            rest@ == orig.skip(j),
            store.items_view() == ingested(s0.items_view(), orig.take(j)),
            store.active_view() == s0.active_view(),
            store.compaction_view() == s1.compaction_view(),
        decreases rest.len(),
    {
        let m = rest.remove(0);
        assert(orig.take(j + 1).drop_last() =~= orig.take(j));
        assert(orig.take(j + 1).last() == m);
        assert(rest@ =~= orig.skip(j + 1));
        store.add_message(m);
        proof {
            j = j + 1;
        }
    }
    assert(orig.take(j) =~= orig);
    if let Some(id) = last_id {
        store.set_active_message_id(Some(id));
    }
    assert(store.compaction_view() == s1.compaction_view());
    assert forall|x: Seq<char>| #[trigger] store.summary_marked(x) == (s0.summary_marked(x)
        || ids_of(compaction_summary_ids@).contains(x)) by {
        assert(store.summary_marked(x) == s1.summary_marked(x));
    }
    assert forall|x: Seq<char>| #[trigger] store.head_of(x) == match restored_head(
        orig,
        ids_of(compaction_summary_ids@),
        x,
        orig.len() as int,
    ) {
        Some(h) => Some(h),
        None => s0.head_of(x),
    } by {
        assert(store.head_of(x) == s1.head_of(x));
    }
}

} // verus!
