//! Laws of the edit engine: what a sequence of edits does to a file's
//! content, stated over the engine's mathematical model.

use vstd::prelude::*;
use crate::edit::{
    capped_sum, edit_outcome, first_empty_from, lemma_first_match_is_leftmost,
    lemma_match_starts_spaced, lemma_splice_all_is_replace_all, match_starts, match_starts_from,
    matches_at, replace_all, replace_all_from, run_edits, selected_positions, selection_error,
    selection_outcome, splice, SelectionOutcome,
};
use crate::error::{EditFailureModel, WorkspaceErrorModel};
use crate::ops::EditMatchSelection;

verus! {

proof fn lemma_match_count_bounded(s: Seq<char>, p: Seq<char>, i: int)
    requires
        p.len() > 0,
        0 <= i <= s.len(),
    ensures
        match_starts_from(s, p, i).len() <= s.len() - i,
    decreases s.len() - i,
{
    if i + p.len() > s.len() {
    } else if matches_at(s, p, i) {
        lemma_match_count_bounded(s, p, i + p.len());
    } else {
        lemma_match_count_bounded(s, p, i + 1);
    }
}

/// Replacing every occurrence of a string by itself changes nothing.
pub proof fn law_replace_all_by_itself_is_identity(s: Seq<char>, p: Seq<char>, i: int)
    requires
        p.len() > 0,
        0 <= i <= s.len(),
    ensures
        replace_all_from(s, p, p, i) == s.subrange(i, s.len() as int),
    decreases s.len() - i,
{
    if i + p.len() > s.len() {
    } else if matches_at(s, p, i) {
        law_replace_all_by_itself_is_identity(s, p, i + p.len());
        assert(s.subrange(i, s.len() as int) =~= s.subrange(i, i + p.len()) + s.subrange(
            i + p.len(),
            s.len() as int,
        ));
    } else {
        law_replace_all_by_itself_is_identity(s, p, i + 1);
        assert(s.subrange(i, s.len() as int) =~= seq![s[i]] + s.subrange(i + 1, s.len() as int));
    }
}

/// An edit in `All` mode replaces every non-overlapping occurrence of its old
/// string (as `str::replace` does) and reports one replacement per occurrence.
pub proof fn law_all_mode_replaces_every_occurrence(
    file_path: Seq<char>,
    s: Seq<char>,
    old_s: Seq<char>,
    new_s: Seq<char>,
)
    requires
        old_s.len() > 0,
        match_starts(s, old_s).len() > 0,
        s.len() <= usize::MAX,
    ensures
        edit_outcome(file_path, seq![(old_s, new_s, EditMatchSelection::All)], Ok(s)) == Ok::<
            (Seq<char>, nat),
            WorkspaceErrorModel,
        >((replace_all(s, old_s, new_s), match_starts(s, old_s).len())),
{
    let ops = seq![(old_s, new_s, EditMatchSelection::All)];
    let starts = match_starts(s, old_s);
    let ix = Seq::new(starts.len(), |k: int| k);
    assert(first_empty_from(ops, 1) is None);
    assert(first_empty_from(ops, 0) is None);
    assert(selected_positions(starts, ix) =~= starts);
    lemma_splice_all_is_replace_all(s, old_s, new_s, 0);
    lemma_match_count_bounded(s, old_s, 0);
    let next = splice(s, starts, old_s.len() as int, new_s, 0);
    assert(run_edits(next, ops, file_path, 1, starts.len()) == Ok::<
        (Seq<char>, nat),
        WorkspaceErrorModel,
    >((next, starts.len())));
}

/// An edit in `First` mode replaces exactly the leftmost occurrence.
pub proof fn law_first_mode_replaces_leftmost_occurrence(
    file_path: Seq<char>,
    s: Seq<char>,
    old_s: Seq<char>,
    new_s: Seq<char>,
)
    requires
        old_s.len() > 0,
        match_starts(s, old_s).len() > 0,
    ensures
        ({
            let i0 = match_starts(s, old_s)[0];
            &&& matches_at(s, old_s, i0)
            &&& forall|j: int| 0 <= j < i0 ==> !matches_at(s, old_s, j)
            &&& edit_outcome(file_path, seq![(old_s, new_s, EditMatchSelection::First)], Ok(s))
                == Ok::<(Seq<char>, nat), WorkspaceErrorModel>(
                (s.subrange(0, i0) + new_s + s.subrange(i0 + old_s.len(), s.len() as int), 1),
            )
        }),
{
    let ops = seq![(old_s, new_s, EditMatchSelection::First)];
    let starts = match_starts(s, old_s);
    let i0 = starts[0];
    lemma_match_starts_spaced(s, old_s, 0);
    assert(first_empty_from(ops, 1) is None);
    assert(first_empty_from(ops, 0) is None);
    assert forall|j: int| 0 <= j < i0 implies !matches_at(s, old_s, j) by {
        if matches_at(s, old_s, j) {
            lemma_first_match_is_leftmost(s, old_s, 0, j);
        }
    }
    let pos = selected_positions(starts, seq![0int]);
    assert(pos =~= seq![i0]);
    assert(pos.drop_first() =~= Seq::<int>::empty());
    let next = splice(s, pos, old_s.len() as int, new_s, 0);
    assert(splice(s, pos.drop_first(), old_s.len() as int, new_s, i0 + old_s.len())
        == s.subrange(i0 + old_s.len(), s.len() as int));
    assert(next =~= s.subrange(0, i0) + new_s + s.subrange(i0 + old_s.len(), s.len() as int));
    assert(run_edits(next, ops, file_path, 1, 1) == Ok::<(Seq<char>, nat), WorkspaceErrorModel>(
        (next, 1),
    ));
}

/// An edit in `ExactlyOne` mode (the default) succeeds exactly when its old
/// string occurs once; otherwise it reports that the string was not found, or
/// how many times it was found.
pub proof fn law_exactly_one_mode_needs_a_unique_occurrence(
    file_path: Seq<char>,
    s: Seq<char>,
    old_s: Seq<char>,
    new_s: Seq<char>,
)
    requires
        old_s.len() > 0,
    ensures
        ({
            let n = match_starts(s, old_s).len();
            let out = edit_outcome(
                file_path,
                seq![(old_s, new_s, EditMatchSelection::ExactlyOne)],
                Ok(s),
            );
            &&& (out is Ok <==> n == 1)
            &&& n == 0 ==> out == Err::<(Seq<char>, nat), WorkspaceErrorModel>(
                WorkspaceErrorModel::Edit(
                    EditFailureModel::StringNotFound { file_path, edit_index: 1 },
                ),
            )
            &&& n > 1 ==> (out matches Err(
                WorkspaceErrorModel::Edit(EditFailureModel::NonUniqueMatch { occurrences, .. }),
            ) && occurrences == n)
        }),
{
    let ops = seq![(old_s, new_s, EditMatchSelection::ExactlyOne)];
    assert(first_empty_from(ops, 1) is None);
    assert(first_empty_from(ops, 0) is None);
    let starts = match_starts(s, old_s);
    if starts.len() == 1 {
        let next = splice(
            s,
            selected_positions(starts, seq![0int]),
            old_s.len() as int,
            new_s,
            0,
        );
        assert(run_edits(next, ops, file_path, 1, 1) == Ok::<
            (Seq<char>, nat),
            WorkspaceErrorModel,
        >((next, 1)));
    }
}

proof fn lemma_capped_assoc(a: nat, b: nat, c: nat)
    ensures
        capped_sum(capped_sum(a, b), c) == capped_sum(a, capped_sum(b, c)),
{
}

proof fn lemma_run_count_shift(
    s: Seq<char>,
    ops: Seq<(Seq<char>, Seq<char>, EditMatchSelection)>,
    file_path: Seq<char>,
    k: int,
    c: nat,
    d: nat,
)
    requires
        0 <= k,
        c <= usize::MAX,
        d <= usize::MAX,
    ensures
        match (run_edits(s, ops, file_path, k, c), run_edits(s, ops, file_path, k, d)) {
            (Ok((s1, c1)), Ok((s2, d1))) => s1 == s2 && c1 <= usize::MAX && d1 <= usize::MAX && (c
                == 0 ==> d1 == capped_sum(d, c1)),
            (Err(e1), Err(e2)) => e1 == e2,
            _ => false,
        },
    decreases ops.len() - k,
{
    if k < ops.len() {
        let starts = match_starts(s, ops[k].0);
        if starts.len() > 0 {
            match selection_outcome(ops[k].2, starts.len()) {
                SelectionOutcome::Indices(ix) => {
                    let next = splice(
                        s,
                        selected_positions(starts, ix),
                        ops[k].0.len() as int,
                        ops[k].1,
                        0,
                    );
                    lemma_run_count_shift(
                        next,
                        ops,
                        file_path,
                        k + 1,
                        capped_sum(c, ix.len()),
                        capped_sum(d, ix.len()),
                    );
                    lemma_run_count_shift(
                        next,
                        ops,
                        file_path,
                        k + 1,
                        0,
                        capped_sum(c, ix.len()),
                    );
                    lemma_run_count_shift(
                        next,
                        ops,
                        file_path,
                        k + 1,
                        0,
                        capped_sum(d, ix.len()),
                    );
                    if c == 0 {
                        let l = ix.len();
                        let l0 = capped_sum(0, l);
                        assert(capped_sum(d, l) == capped_sum(d, l0));
                        match run_edits(next, ops, file_path, k + 1, 0) {
                            Ok((_, z)) => {
                                lemma_capped_assoc(d, l0, z);
                                assert(run_edits(s, ops, file_path, k, c) == run_edits(
                                    next,
                                    ops,
                                    file_path,
                                    k + 1,
                                    l0,
                                ));
                                assert(run_edits(s, ops, file_path, k, d) == run_edits(
                                    next,
                                    ops,
                                    file_path,
                                    k + 1,
                                    capped_sum(d, l),
                                ));
                            },
                            Err(_) => {},
                        }
                    }
                },
                _ => {},
            }
        }
    }
}

proof fn lemma_run_concat(
    s: Seq<char>,
    ops1: Seq<(Seq<char>, Seq<char>, EditMatchSelection)>,
    ops2: Seq<(Seq<char>, Seq<char>, EditMatchSelection)>,
    file_path: Seq<char>,
    k: int,
    c: nat,
)
    requires
        0 <= k <= ops1.len(),
    ensures
        run_edits(s, ops1 + ops2, file_path, k, c) == match run_edits(s, ops1, file_path, k, c) {
            Ok((s1, c1)) => run_edits(s1, ops1 + ops2, file_path, ops1.len() as int, c1),
            Err(e) => Err(e),
        },
    decreases ops1.len() - k,
{
    let all = ops1 + ops2;
    if k < ops1.len() {
        assert(all[k] == ops1[k]);
        let starts = match_starts(s, ops1[k].0);
        if starts.len() > 0 {
            match selection_outcome(ops1[k].2, starts.len()) {
                SelectionOutcome::Indices(ix) => {
                    let next = splice(
                        s,
                        selected_positions(starts, ix),
                        ops1[k].0.len() as int,
                        ops1[k].1,
                        0,
                    );
                    lemma_run_concat(next, ops1, ops2, file_path, k + 1, capped_sum(c, ix.len()));
                },
                _ => {},
            }
        }
    }
}

proof fn lemma_run_suffix(
    s: Seq<char>,
    ops1: Seq<(Seq<char>, Seq<char>, EditMatchSelection)>,
    ops2: Seq<(Seq<char>, Seq<char>, EditMatchSelection)>,
    file_path: Seq<char>,
    j: int,
    c: nat,
)
    requires
        0 <= j,
    ensures
        run_edits(s, ops1 + ops2, file_path, ops1.len() + j, c) is Ok <==> run_edits(
            s,
            ops2,
            file_path,
            j,
            c,
        ) is Ok,
        run_edits(s, ops2, file_path, j, c) is Ok ==> run_edits(
            s,
            ops1 + ops2,
            file_path,
            ops1.len() + j,
            c,
        ) == run_edits(s, ops2, file_path, j, c),
    decreases ops2.len() - j,
{
    let all = ops1 + ops2;
    if j < ops2.len() {
        assert(all[ops1.len() + j] == ops2[j]);
        let starts = match_starts(s, ops2[j].0);
        if starts.len() > 0 {
            match selection_outcome(ops2[j].2, starts.len()) {
                SelectionOutcome::Indices(ix) => {
                    let next = splice(
                        s,
                        selected_positions(starts, ix),
                        ops2[j].0.len() as int,
                        ops2[j].1,
                        0,
                    );
                    lemma_run_suffix(next, ops1, ops2, file_path, j + 1, capped_sum(c, ix.len()));
                },
                _ => {},
            }
        }
    }
}

/// Applying two lists of edits in one request gives the content that applying
/// the first list and then the second gives, and the replacements add up
/// (capped at `usize::MAX`).
pub proof fn law_edits_compose(
    file_path: Seq<char>,
    s: Seq<char>,
    ops1: Seq<(Seq<char>, Seq<char>, EditMatchSelection)>,
    ops2: Seq<(Seq<char>, Seq<char>, EditMatchSelection)>,
    s1: Seq<char>,
    c1: nat,
    s2: Seq<char>,
    c2: nat,
)
    requires
        run_edits(s, ops1, file_path, 0, 0) == Ok::<(Seq<char>, nat), WorkspaceErrorModel>(
            (s1, c1),
        ),
        run_edits(s1, ops2, file_path, 0, 0) == Ok::<(Seq<char>, nat), WorkspaceErrorModel>(
            (s2, c2),
        ),
    ensures
        run_edits(s, ops1 + ops2, file_path, 0, 0) == Ok::<(Seq<char>, nat), WorkspaceErrorModel>(
            (s2, capped_sum(c1, c2)),
        ),
{
    lemma_run_concat(s, ops1, ops2, file_path, 0, 0);
    lemma_run_count_shift(s, ops1, file_path, 0, 0, 0);
    lemma_run_count_shift(s1, ops2, file_path, 0, 0, c1);
    lemma_run_suffix(s1, ops1, ops2, file_path, 0, c1);
}

} // verus!
