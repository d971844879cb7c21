//! Laws of the editor as a whole: properties of entire input sequences,
//! proved over the specification functions that the executable methods are
//! verified against.

use vstd::prelude::*;

use crate::editor::{
    apply_act, clamp, lemma_apply_act_base_wf, lemma_clamp_wf, lemma_step_raw_base_wf,
    run_command, step_key, step_key_raw, Act, EditorView, Key, Status,
};
use crate::text::{is_ws, split_ws, ws_rec};

verus! {

/// The state after an input sequence: every key stepped through the mode
/// machine, the dispatcher and the clamp.
pub open spec fn run_keys(v: EditorView, ks: Seq<(Key, bool)>) -> EditorView
    decreases ks.len(),
{
    if ks.len() == 0 {
        v
    } else {
        run_keys(step_key(v, ks[0].0, ks[0].1).0, ks.drop_first())
    }
}

/// One action applied by the dispatcher, then the clamp: what one loop
/// iteration does to the state.
pub open spec fn step_act(v: EditorView, a: Act) -> EditorView {
    clamp(apply_act(v, a).0)
}

/// The same action applied `k` times.
pub open spec fn iter_act(v: EditorView, a: Act, k: nat) -> EditorView
    decreases k,
{
    if k == 0 {
        v
    } else {
        iter_act(step_act(v, a), a, (k - 1) as nat)
    }
}

/// One key preserves the state invariant: afterwards the cursor row is a
/// line of the active buffer, the column is within the mode's bound, and
/// `scroll <= row < scroll + visible_rows`.
pub proof fn lemma_step_key_wf(v: EditorView, key: Key, ctrl: bool)
    requires
        v.wf(),
    ensures
        step_key(v, key, ctrl).0.wf(),
{
    lemma_step_raw_base_wf(v, key, ctrl);
    lemma_clamp_wf(step_key_raw(v, key, ctrl).0);
}

/// The state invariant holds after every input sequence — in particular the
/// cursor and viewport bounds hold after each step of any sequence of move
/// or page actions, since each intermediate state is `run_keys` of a
/// prefix.
pub proof fn lemma_run_keys_wf(v: EditorView, ks: Seq<(Key, bool)>)
    requires
        v.wf(),
    ensures
        run_keys(v, ks).wf(),
    decreases ks.len(),
{
    if ks.len() > 0 {
        lemma_step_key_wf(v, ks[0].0, ks[0].1);
        lemma_run_keys_wf(step_key(v, ks[0].0, ks[0].1).0, ks.drop_first());
    }
}

/// One dispatched action preserves the invariant once the clamp has run.
pub proof fn lemma_step_act_wf(v: EditorView, a: Act)
    requires
        v.wf(),
    ensures
        step_act(v, a).wf(),
{
    lemma_apply_act_base_wf(v, a);
    lemma_clamp_wf(apply_act(v, a).0);
}

/// After `k` next-buffer steps the active index has advanced by `k`,
/// wrapping once at the end of the list; the buffers themselves are
/// untouched.
proof fn lemma_next_buffer_steps(v: EditorView, k: nat)
    requires
        v.wf(),
        k <= v.buffers.len(),
    ensures
        iter_act(v, Act::NextBuffer, k).buffers == v.buffers,
        iter_act(v, Act::NextBuffer, k).active == (if v.active + k < v.buffers.len() {
            v.active + k
        } else {
            v.active + k - v.buffers.len()
        }),
        iter_act(v, Act::NextBuffer, k).wf(),
    decreases k,
{
    if k > 0 {
        lemma_step_act_wf(v, Act::NextBuffer);
        lemma_next_buffer_steps(step_act(v, Act::NextBuffer), (k - 1) as nat);
    }
}

/// After `k` previous-buffer steps the active index has moved back by `k`,
/// wrapping once at the start of the list.
proof fn lemma_previous_buffer_steps(v: EditorView, k: nat)
    requires
        v.wf(),
        k <= v.buffers.len(),
    ensures
        iter_act(v, Act::PreviousBuffer, k).buffers == v.buffers,
        iter_act(v, Act::PreviousBuffer, k).active == (if v.active >= k {
            v.active - k
        } else {
            v.active + v.buffers.len() - k
        }),
        iter_act(v, Act::PreviousBuffer, k).wf(),
    decreases k,
{
    if k > 0 {
        lemma_step_act_wf(v, Act::PreviousBuffer);
        lemma_previous_buffer_steps(step_act(v, Act::PreviousBuffer), (k - 1) as nat);
    }
}

/// Cycling through the buffer list comes back around: `NextBuffer` applied
/// once per buffer returns to the original active index, and so does
/// `PreviousBuffer`.
pub proof fn lemma_buffer_cycle(v: EditorView)
    requires
        v.wf(),
    ensures
        iter_act(v, Act::NextBuffer, v.buffers.len() as nat).active == v.active,
        iter_act(v, Act::NextBuffer, v.buffers.len() as nat).buffers == v.buffers,
        iter_act(v, Act::PreviousBuffer, v.buffers.len() as nat).active == v.active,
        iter_act(v, Act::PreviousBuffer, v.buffers.len() as nat).buffers == v.buffers,
{
    lemma_next_buffer_steps(v, v.buffers.len() as nat);
    lemma_previous_buffer_steps(v, v.buffers.len() as nat);
}

/// A run of non-whitespace characters is gathered into the token under
/// construction.
proof fn lemma_ws_rec_clean(t: Seq<char>, cur: Seq<char>, acc: Seq<Seq<char>>)
    requires
        forall|j: int| 0 <= j < t.len() ==> !is_ws(#[trigger] t[j]),
    ensures
        ws_rec(t, cur, acc) == (if (cur + t).len() == 0 {
            acc
        } else {
            acc.push(cur + t)
        }),
    decreases t.len(),
{
    if t.len() == 0 {
        assert(cur + t =~= cur);
    } else {
        assert(!is_ws(t[0]));
        lemma_ws_rec_clean(t.drop_first(), cur.push(t[0]), acc);
        assert(cur.push(t[0]) + t.drop_first() =~= cur + t);
    }
}

/// A non-empty command without whitespace is its own single token.
proof fn lemma_split_ws_single(t: Seq<char>)
    requires
        t.len() > 0,
        forall|j: int| 0 <= j < t.len() ==> !is_ws(#[trigger] t[j]),
    ensures
        split_ws(t) == seq![t],
{
    lemma_ws_rec_clean(t, Seq::empty(), Seq::empty());
    assert(Seq::<char>::empty() + t =~= t);
    assert(Seq::<Seq<char>>::empty().push(t) =~= seq![t]);
}

/// The quit guard: the command `q` on a modified buffer does not set the
/// terminate flag and reports unsaved changes; on an unmodified buffer it
/// sets the flag; and `q!` sets it unconditionally.
pub proof fn lemma_quit_guard(v: EditorView)
    requires
        v.wf(),
    ensures
        v.cur().modified ==> run_command(v, "q"@).0.exit == v.exit && run_command(v, "q"@).0.status
            == Some(Status::UnsavedChanges),
        !v.cur().modified ==> run_command(v, "q"@).0.exit,
        run_command(v, "q!"@).0.exit,
{
    reveal_strlit("q");
    reveal_strlit("q!");
    reveal_strlit("w");
    reveal_strlit("write");
    reveal_strlit("quit");
    reveal_strlit("quit!");
    reveal_strlit("wq");
    let q = "q"@;
    let qf = "q!"@;
    assert(q =~= seq!['q']);
    assert(qf =~= seq!['q', '!']);
    assert(forall|j: int| 0 <= j < q.len() ==> !is_ws(#[trigger] q[j]));
    assert(forall|j: int| 0 <= j < qf.len() ==> !is_ws(#[trigger] qf[j]));
    lemma_split_ws_single(q);
    lemma_split_ws_single(qf);
    assert(split_ws(q)[0] == q);
    assert(split_ws(qf)[0] == qf);
    assert(q != "w"@ && q != "write"@ && q != "wq"@ && q != "q!"@ && q != "quit!"@);
    assert(qf != "w"@ && qf != "write"@ && qf != "q"@ && qf != "quit"@);
}

} // verus!
