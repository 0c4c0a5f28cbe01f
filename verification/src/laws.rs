//! What holds of every state and of every run of the engine.

use vstd::prelude::*;
use crate::bits::{lemma_packed_drops_remainder, lemma_packed_push, packed};
use crate::field::Field;
use crate::grid::{contains, put, rectangular, width};
use crate::model::{awaits_input, course, start, step, target, State};

verus! {

/// Whether the garden of `s` is a rectangle and the head, while it has not
/// left, stands on one of its fields.
pub open spec fn consistent(s: State) -> bool {
    &&& rectangular(s.garden)
    &&& match s.head {
        Some((r, c)) => contains(s.garden, r, c),
        None => true,
    }
}

/// The engine starts in a consistent state, and a step keeps the state
/// consistent and the garden at its size.
pub proof fn lemma_consistency(garden: Seq<Seq<Field>>, s: State, fresh: Option<u8>)
    requires
        rectangular(garden),
        consistent(s),
    ensures
        consistent(start(garden)),
        consistent(step(s, fresh)),
        step(s, fresh).garden.len() == s.garden.len(),
        width(step(s, fresh).garden) == width(s.garden),
{
    let after = step(s, fresh);
    if s.head is Some {
        let (r, c) = s.head.unwrap();
        assert forall|k: int| 0 <= k < after.garden.len() implies (#[trigger] after.garden[k]).len()
            == after.garden[0].len() by {
            assert(after.garden[k].len() == s.garden[k].len());
            assert(after.garden[0].len() == s.garden[0].len());
        }
    }
}

/// A step appends at most one bit to the output, and only the value of the
/// field ahead of the head; what was written before stays as it was.
pub proof fn lemma_step_writes_at_most_one_bit(s: State, fresh: Option<u8>)
    requires
        consistent(s),
    ensures
        step(s, fresh).written == s.written || exists|bit: bool|
            step(s, fresh).written == s.written.push(bit),
        s.written.is_prefix_of(step(s, fresh).written),
        packed(s.written).is_prefix_of(packed(step(s, fresh).written)),
{
    let after = step(s, fresh);
    if after.written != s.written {
        let (r, c) = s.head.unwrap();
        let harvested = put(s.garden, r, c, Field::Open);
        let (nr, nc) = target(harvested, r, c, s.facing).unwrap();
        let bit = harvested[nr][nc] == Field::Planted;
        assert(after.written == s.written.push(bit));
        lemma_packed_push(s.written, bit);
    }
}

/// The output of a run is whole bytes: one for every eight bits that were
/// appended, spelled by them in order. The bits that are left over when the
/// run ends are in none of them.
pub proof fn lemma_output_is_whole_bytes(s: State, input: Seq<u8>, budget: nat)
    ensures
        packed(course(s, input, budget).state.written).len() == course(
            s,
            input,
            budget,
        ).state.written.len() / 8,
        packed(course(s, input, budget).state.written) == packed(
            course(s, input, budget).state.written.take(
                8 * (course(s, input, budget).state.written.len() as int / 8),
            ),
        ),
{
    lemma_packed_drops_remainder(course(s, input, budget).state.written);
}

/// A run ends when the head leaves the garden and not before: it stops short
/// of its budget only with the head gone, and before each step that it took
/// the head was still within. While the head never leaves, the run uses up
/// any budget it is given.
pub proof fn lemma_run_ends_when_head_leaves(s: State, input: Seq<u8>, budget: nat)
    ensures
        course(s, input, budget).steps <= budget,
        course(s, input, budget).steps < budget ==> course(s, input, budget).state.head is None,
        forall|k: nat|
            k < course(s, input, budget).steps ==> (#[trigger] course(s, input, k)).state.head
                is Some && course(s, input, k).steps == k,
    decreases budget,
{
    if budget == 0 || s.head is None {
    } else {
        let fresh = if awaits_input(s) && input.len() > 0 {
            Some(input[0])
        } else {
            None
        };
        let rest = if fresh is Some {
            input.drop_first()
        } else {
            input
        };
        let next = step(s, fresh);
        lemma_run_ends_when_head_leaves(next, rest, (budget - 1) as nat);
        assert forall|k: nat| k < course(s, input, budget).steps implies (#[trigger] course(
            s,
            input,
            k,
        )).state.head is Some && course(s, input, k).steps == k by {
            if k > 0 {
                assert(course(next, rest, (k - 1) as nat).state.head is Some);
            }
        }
    }
}

/// Once a run has ended with the head gone, a greater budget changes
/// nothing.
pub proof fn lemma_budget_beyond_the_end(s: State, input: Seq<u8>, budget: nat, more: nat)
    requires
        course(s, input, budget).state.head is None,
        more >= budget,
    ensures
        course(s, input, more) == course(s, input, budget),
    decreases budget,
{
    if budget == 0 || s.head is None {
    } else {
        let fresh = if awaits_input(s) && input.len() > 0 {
            Some(input[0])
        } else {
            None
        };
        let rest = if fresh is Some {
            input.drop_first()
        } else {
            input
        };
        lemma_budget_beyond_the_end(
            step(s, fresh),
            rest,
            (budget - 1) as nat,
            (more - 1) as nat,
        );
    }
}

/// A set `suppress_plant` cancels the next planting and no other. On an
/// open field the step leaves the garden as it is and clears the flag; with
/// the flag clear the field is planted. Over any other field the flag stays
/// as it was set.
pub proof fn lemma_suppress_plant_cancels_one(s: State, r: int, c: int, fresh: Option<u8>)
    requires
        consistent(s),
        s.head == Some((r, c)),
    ensures
        s.garden[r][c] == Field::Open && s.suppress_plant ==> step(s, fresh).garden == s.garden
            && !step(s, fresh).suppress_plant,
        s.garden[r][c] == Field::Open && !s.suppress_plant ==> step(s, fresh).garden == put(
            s.garden,
            r,
            c,
            Field::Planted,
        ) && !step(s, fresh).suppress_plant,
        s.garden[r][c] != Field::Open && s.suppress_plant ==> step(s, fresh).suppress_plant,
{
}

/// Of two open fields that the head meets one after the other with
/// `suppress_plant` set, the first stays open and the second is planted.
pub proof fn lemma_suppress_plant_spares_the_second(
    s: State,
    r: int,
    c: int,
    first: Option<u8>,
    second: Option<u8>,
)
    requires
        consistent(s),
        s.head == Some((r, c)),
        s.garden[r][c] == Field::Open,
        s.suppress_plant,
        target(s.garden, r, c, s.facing) is Some,
        s.garden[target(s.garden, r, c, s.facing).unwrap().0][target(
            s.garden,
            r,
            c,
            s.facing,
        ).unwrap().1] == Field::Open,
    ensures
        step(step(s, first), second).garden == put(
            s.garden,
            target(s.garden, r, c, s.facing).unwrap().0,
            target(s.garden, r, c, s.facing).unwrap().1,
            Field::Planted,
        ),
        step(step(s, first), second).garden[r][c] == Field::Open,
        !step(step(s, first), second).suppress_plant,
{
}

/// A set `suppress_harvest` cancels the next harvest and no other. On a
/// planted field the step clears the flag and changes nothing else but the
/// place of the head: the field stays planted and no command is executed.
/// With the flag clear the field is harvested. Over any other field the flag
/// stays as it was set.
pub proof fn lemma_suppress_harvest_cancels_one(s: State, r: int, c: int, fresh: Option<u8>)
    requires
        consistent(s),
        s.head == Some((r, c)),
    ensures
        s.garden[r][c] == Field::Planted && s.suppress_harvest ==> step(s, fresh) == (State {
            suppress_harvest: false,
            head: target(s.garden, r, c, s.facing),
            ..s
        }),
        s.garden[r][c] == Field::Planted && !s.suppress_harvest && s.suppress_execute ==> step(
            s,
            fresh,
        ).garden == put(s.garden, r, c, Field::Open) && !step(s, fresh).suppress_harvest,
        s.garden[r][c] != Field::Planted && s.suppress_harvest ==> step(s, fresh).suppress_harvest,
{
}

/// A set `suppress_execute` cancels the command of the next harvest and no
/// other. After a harvest the step clears the flag and executes nothing: but
/// for the harvested field and the place of the head all stays as it was.
/// Where no harvest takes place, the field being open or inert or the
/// harvest itself being cancelled, the flag stays as it was set.
pub proof fn lemma_suppress_execute_cancels_one(s: State, r: int, c: int, fresh: Option<u8>)
    requires
        consistent(s),
        s.head == Some((r, c)),
    ensures
        s.garden[r][c] == Field::Planted && !s.suppress_harvest && s.suppress_execute ==> step(
            s,
            fresh,
        ) == (State {
            garden: put(s.garden, r, c, Field::Open),
            suppress_execute: false,
            head: target(put(s.garden, r, c, Field::Open), r, c, s.facing),
            ..s
        }),
        (s.garden[r][c] != Field::Planted || s.suppress_harvest) && s.suppress_execute ==> step(
            s,
            fresh,
        ).suppress_execute,
{
}

} // verus!
