//! Whole runs of an import: what holds whatever the replies are.

use crate::importredis::{
    address, awaits_reply, enter, execute_step, fields_command, is_redirect, is_running,
    membership_command, next, redirect_target, valid, ActionView, DirectiveView, ErrorView,
    Execution, FaultView, Phase, Plan, State, StepView,
};
use crate::record::contains_name;
use crate::text::{find, lemma_find_first};
use vstd::prelude::*;

verus! {

/// The state in which every import begins.
pub open spec fn initial() -> State {
    State { position: 0, phase: Phase::Connecting }
}

/// An import that is given the replies one after the other: the state it
/// reaches and the steps it takes, one for each reply until it ends. Replies
/// that come after its end go unheard.
pub open spec fn run(plan: Plan, replies: Seq<Option<FaultView>>) -> (State, Seq<StepView>)
    decreases replies.len(),
{
    if replies.len() == 0 {
        (initial(), Seq::empty())
    } else {
        let before = run(plan, replies.drop_last());
        if is_running(before.0.phase) {
            (
                next(plan, before.0, replies.last()).0,
                before.1.push(next(plan, before.0, replies.last()).1),
            )
        } else {
            before
        }
    }
}

/// For each record, whether it has the identifier field.
pub open spec fn identified(plan: Plan) -> Seq<bool> {
    Seq::new(plan.data.len(), |i: int| contains_name(plan.data[i], plan.id_key))
}

/// The place of the first record without the identifier field, or the
/// number of records where each has it.
pub open spec fn first_missing(plan: Plan) -> nat {
    find(identified(plan), false)
}

/// `args` is one of the two commands that write the record at place `p`.
pub open spec fn is_command_of(plan: Plan, args: Seq<Seq<u8>>, p: int) -> bool {
    args == membership_command(plan, p) || args == fields_command(plan, p)
}

/// `args` is a command that writes one of the first `bound` records.
pub open spec fn is_command_before(plan: Plan, args: Seq<Seq<u8>>, bound: nat) -> bool {
    exists|p: int| 0 <= p < bound && #[trigger] is_command_of(plan, args, p)
}

/// A step leaves the import in a state that fits its plan, on the same
/// record or on the next one.
pub proof fn lemma_next_valid(plan: Plan, state: State, failure: Option<FaultView>)
    requires
        valid(plan, state),
        is_running(state.phase),
    ensures
        valid(plan, next(plan, state, failure).0),
        next(plan, state, failure).0.position == state.position || next(
            plan,
            state,
            failure,
        ).0.position == state.position + 1,
{
}

/// However the replies fall, the import stays in a state that fits its
/// plan, and takes no more steps than there are replies.
pub proof fn lemma_run_valid(plan: Plan, replies: Seq<Option<FaultView>>)
    ensures
        valid(plan, run(plan, replies).0),
        run(plan, replies).1.len() <= replies.len(),
    decreases replies.len(),
{
    if replies.len() > 0 {
        let before = run(plan, replies.drop_last());
        lemma_run_valid(plan, replies.drop_last());
        if is_running(before.0.phase) {
            lemma_next_valid(plan, before.0, replies.last());
        }
    }
}

/// A record without the identifier field stops the import, whatever the
/// replies are. The import never gets beyond the first such record and never
/// succeeds if there is one; every command it issues writes a record before
/// that one; and the only record it ever reports as lacking the field is
/// that one.
pub proof fn lemma_missing_identifier_stops(plan: Plan, replies: Seq<Option<FaultView>>)
    ensures
        run(plan, replies).0.position <= first_missing(plan) <= plan.data.len(),
        run(plan, replies).0.phase is Finished ==> first_missing(plan) == plan.data.len(),
        forall|k: int|
            0 <= k < run(plan, replies).1.len() ==> match (#[trigger] run(
                plan,
                replies,
            ).1[k]).action {
                ActionView::Execute(args) => is_command_before(plan, args, first_missing(plan)),
                ActionView::Finish(count) => count == plan.data.len() && first_missing(plan)
                    == plan.data.len(),
                ActionView::Abort(ErrorView::IdentifierMissing { id_key, position }) => {
                    &&& id_key == plan.id_key
                    &&& position == first_missing(plan)
                    &&& position < plan.data.len()
                },
                _ => true,
            },
    decreases replies.len(),
{
    let m = first_missing(plan);
    lemma_find_first(identified(plan), false);
    if replies.len() > 0 {
        let before = run(plan, replies.drop_last());
        lemma_missing_identifier_stops(plan, replies.drop_last());
        lemma_run_valid(plan, replies.drop_last());
        if is_running(before.0.phase) {
            let p = before.0.position;
            let after = next(plan, before.0, replies.last());
            lemma_next_valid(plan, before.0, replies.last());
            if before.0.phase is Membership || before.0.phase is Fields {
                assert(is_command_of(plan, fields_command(plan, p as int), p as int));
            }
            if after.0.phase is Membership {
                let q = after.0.position;
                assert(is_command_of(plan, membership_command(plan, q as int), q as int));
            }
            if after.0.position < plan.data.len() && after.0.position <= m {
                assert(identified(plan)[after.0.position as int] == contains_name(
                    plan.data[after.0.position as int],
                    plan.id_key,
                ));
            }
        }
    }
}

/// How many replies an import can still take before it has ended: one for
/// the connection, and for each record not yet written its two commands,
/// each with the two further steps of a redirect.
pub open spec fn steps_left(plan: Plan, state: State) -> int {
    let records = 6 * (plan.data.len() - state.position);
    let behind = |execution: Execution|
        match execution {
            Execution::Issued => 0int,
            Execution::Redirected => 1int,
            _ => 2int,
        };
    match state.phase {
        Phase::Connecting => 1 + records,
        Phase::Membership(execution) => records - behind(execution),
        Phase::Fields(execution) => records - 3 - behind(execution),
        Phase::Finished | Phase::Aborted => 0,
    }
}

/// Every import ends. A step brings the end nearer, so that after one
/// reply for the connection and six for each record, at the latest, the
/// import has finished or was given up: no run of redirects keeps it going.
pub proof fn lemma_import_ends(plan: Plan, replies: Seq<Option<FaultView>>)
    ensures
        0 <= steps_left(plan, run(plan, replies).0),
        is_running(run(plan, replies).0.phase) ==> steps_left(plan, run(plan, replies).0)
            + replies.len() <= 1 + 6 * plan.data.len(),
        replies.len() >= 1 + 6 * plan.data.len() ==> !is_running(run(plan, replies).0.phase),
    decreases replies.len(),
{
    lemma_run_valid(plan, replies);
    if replies.len() > 0 {
        let before = run(plan, replies.drop_last());
        lemma_import_ends(plan, replies.drop_last());
        lemma_run_valid(plan, replies.drop_last());
        if is_running(before.0.phase) {
            lemma_next_valid(plan, before.0, replies.last());
        }
    }
}

/// `n` replies that all say that the action was done.
pub open spec fn all_done(n: nat) -> Seq<Option<FaultView>> {
    Seq::new(n, |i: int| None)
}

/// An import that nothing fails. Once the connection is open it writes the
/// records in their order, each with its membership command followed by its
/// fields command and with no other action in between. After two commands
/// for each of the first `q` records it turns to the record at place `q`:
/// it finishes with the number of records if there is none, and gives up
/// there if that record lacks the identifier field.
pub proof fn lemma_clean_run(plan: Plan, q: nat)
    requires
        q <= first_missing(plan),
    ensures
        run(plan, all_done(1 + 2 * q)).0 == enter(plan, q).0,
        run(plan, all_done(1 + 2 * q)).1.len() == 1 + 2 * q,
        run(plan, all_done(1 + 2 * q)).1[2 * q as int].action == enter(plan, q).1,
        forall|p: int|
            0 <= p < q ==> {
                &&& (#[trigger] run(plan, all_done(1 + 2 * q)).1[2 * p]).action
                    == ActionView::Execute(membership_command(plan, p))
                &&& run(plan, all_done(1 + 2 * q)).1[2 * p + 1].action == ActionView::Execute(
                    fields_command(plan, p),
                )
            },
    decreases q,
{
    lemma_find_first(identified(plan), false);
    if q == 0 {
        assert(run(plan, all_done(1).drop_last()) == (initial(), Seq::<StepView>::empty()));
    } else {
        let r = (q - 1) as nat;
        let two = all_done(1 + 2 * q);
        let one = all_done(2 + 2 * r);
        let zero = all_done(1 + 2 * r);
        lemma_clean_run(plan, r);
        assert(two.drop_last() == one);
        assert(one.drop_last() == zero);
        assert(identified(plan)[r as int]);
        assert(run(plan, one).0 == State { position: r, phase: Phase::Fields(Execution::Issued) });
    }
}

/// The notifications among the steps, in their order.
pub open spec fn notices(steps: Seq<StepView>) -> Seq<nat>
    decreases steps.len(),
{
    if steps.len() == 0 {
        Seq::empty()
    } else {
        match steps.last().progress {
            Some(count) => notices(steps.drop_last()).push(count),
            None => notices(steps.drop_last()),
        }
    }
}

/// The first `k` multiples of a hundred, from one hundred on.
pub open spec fn hundreds(k: nat) -> Seq<nat> {
    Seq::new(k, |j: int| (100 * (j + 1)) as nat)
}

/// Progress is notified once for every hundred records written in full,
/// when the hundredth of them is written, and never else: whatever the
/// replies are, the notifications so far are the multiples of a hundred up
/// to the number of records written.
pub proof fn lemma_progress_every_hundred(plan: Plan, replies: Seq<Option<FaultView>>)
    ensures
        notices(run(plan, replies).1) == hundreds(run(plan, replies).0.position / 100),
    decreases replies.len(),
{
    if replies.len() > 0 {
        let before = run(plan, replies.drop_last());
        lemma_progress_every_hundred(plan, replies.drop_last());
        lemma_run_valid(plan, replies.drop_last());
        if is_running(before.0.phase) {
            assert(run(plan, replies).1.drop_last() == before.1);
        }
    }
}

/// The execution of one command that is given the replies one after the
/// other: the state it reaches and the directives it gives, one for each
/// reply until it ends.
pub open spec fn execute_run(replies: Seq<Option<FaultView>>) -> (Execution, Seq<DirectiveView>)
    decreases replies.len(),
{
    if replies.len() == 0 {
        (Execution::Issued, Seq::empty())
    } else {
        let before = execute_run(replies.drop_last());
        if awaits_reply(before.0) {
            (
                execute_step(before.0, replies.last()).0,
                before.1.push(execute_step(before.0, replies.last()).1),
            )
        } else {
            before
        }
    }
}

/// A command follows at most one redirect, whatever the replies are. Only
/// its first reply can make it ask for a new connection, and it is sent
/// again only as its second step; after three replies at the latest it
/// has ended.
pub proof fn lemma_one_redirect_at_most(replies: Seq<Option<FaultView>>)
    ensures
        execute_run(replies).1.len() <= 3,
        replies.len() >= 3 ==> !awaits_reply(execute_run(replies).0),
        forall|k: int|
            0 <= k < execute_run(replies).1.len() ==> {
                &&& (#[trigger] execute_run(replies).1[k]) is Connect ==> k == 0
                &&& execute_run(replies).1[k] is Reissue ==> k == 1
            },
{
    lemma_execute_run_shape(replies);
}

/// Where the execution of a command can stand after a number of replies.
proof fn lemma_execute_run_shape(replies: Seq<Option<FaultView>>)
    ensures
        execute_run(replies).1.len() <= replies.len(),
        execute_run(replies).1.len() <= 3,
        match execute_run(replies).0 {
            Execution::Issued => execute_run(replies).1.len() == 0 && replies.len() == 0,
            Execution::Redirected => execute_run(replies).1.len() == 1 && replies.len() == 1,
            Execution::Reissued => execute_run(replies).1.len() == 2 && replies.len() == 2,
            _ => execute_run(replies).1.len() >= 1,
        },
        forall|k: int|
            0 <= k < execute_run(replies).1.len() ==> {
                &&& (#[trigger] execute_run(replies).1[k]) is Connect ==> k == 0
                &&& execute_run(replies).1[k] is Reissue ==> k == 1
            },
    decreases replies.len(),
{
    if replies.len() > 0 {
        lemma_execute_run_shape(replies.drop_last());
    }
}

/// A command that fails once with a redirect is sent again exactly once:
/// a new connection is asked for, to the node that the redirect names; the
/// command is reissued when that connection is open; and when the reissued
/// command has run the execution has succeeded.
pub proof fn lemma_redirect_followed(fault: FaultView)
    requires
        is_redirect(fault),
    ensures
        execute_run(seq![Some(fault), None, None]) == (
            Execution::Success,
            seq![
                DirectiveView::Connect(address(redirect_target(fault), None, None)),
                DirectiveView::Reissue,
                DirectiveView::Return,
            ],
        ),
{
    let three = seq![Some(fault), None, None];
    let two = seq![Some(fault), None];
    let one = seq![Some(fault)];
    assert(three.drop_last() == two);
    assert(two.drop_last() == one);
    assert(execute_run(one.drop_last()) == (Execution::Issued, Seq::<DirectiveView>::empty()));
    assert(execute_run(one).0 == Execution::Redirected);
    assert(execute_run(two).0 == Execution::Reissued);
}

/// After a redirect any failure ends the execution, a second redirect
/// too, and no further connection is asked for.
pub proof fn lemma_second_failure_ends(first: FaultView, second: FaultView)
    requires
        is_redirect(first),
    ensures
        execute_run(seq![Some(first), Some(second)]) == (
            Execution::Failed,
            seq![
                DirectiveView::Connect(address(redirect_target(first), None, None)),
                DirectiveView::Fail(ErrorView::Connect(second)),
            ],
        ),
        execute_run(seq![Some(first), None, Some(second)]) == (
            Execution::Failed,
            seq![
                DirectiveView::Connect(address(redirect_target(first), None, None)),
                DirectiveView::Reissue,
                DirectiveView::Fail(ErrorView::Store(second)),
            ],
        ),
{
    let one = seq![Some(first)];
    assert(execute_run(one.drop_last()) == (Execution::Issued, Seq::<DirectiveView>::empty()));
    assert(execute_run(one).0 == Execution::Redirected);
    let refused = seq![Some(first), Some(second)];
    assert(refused.drop_last() == one);
    let two = seq![Some(first), None];
    assert(two.drop_last() == one);
    assert(execute_run(two).0 == Execution::Reissued);
    let three = seq![Some(first), None, Some(second)];
    assert(three.drop_last() == two);
}

/// An import follows a redirect without losing its place. When a command
/// for the record at place `p` fails with a redirect, the import asks for a
/// connection to the node that the redirect names, sends the same command
/// again once that connection is open, and goes on as after any command
/// that has run; a failure in between ends it.
pub proof fn lemma_import_follows_redirect(
    plan: Plan,
    state: State,
    fault: FaultView,
    second: FaultView,
)
    requires
        valid(plan, state),
        state.phase == Phase::Membership(Execution::Issued) || state.phase == Phase::Fields(
            Execution::Issued,
        ),
        is_redirect(fault),
    ensures
        ({
            let p = state.position;
            let command = if state.phase is Membership {
                membership_command(plan, p as int)
            } else {
                fields_command(plan, p as int)
            };
            let asked = next(plan, state, Some(fault));
            let sent = next(plan, asked.0, None);
            &&& asked.0.position == p && sent.0.position == p
            &&& asked.1.action == ActionView::Connect(address(redirect_target(fault), None, None))
            &&& sent.1.action == ActionView::Execute(command)
            &&& next(plan, sent.0, None) == next(plan, state, None)
            &&& next(plan, asked.0, Some(second)).1.action == ActionView::Abort(
                ErrorView::Connect(second),
            )
            &&& next(plan, sent.0, Some(second)).1.action == ActionView::Abort(
                ErrorView::Store(second),
            )
        }),
{
}

} // verus!
