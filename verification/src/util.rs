//! Small shared command helpers.
use vstd::prelude::*;

use crate::geom::Pos;
use crate::micro::spec_a_move;
use crate::model::{Command, SnapUnit, Target};

verus! {

/// Attack-move every listed unit to one point.
#[verifier::loop_isolation(false)]
pub fn a_move(units: &Vec<SnapUnit>, position: Pos, queue: bool) -> (cmds: Vec<Command>)
    ensures
        cmds@ == spec_a_move(units@, position, queue),
{
    let n = units.len();
    let mut cmds: Vec<Command> = Vec::new();
    let mut i: usize = 0;
    proof {
        assert(units@.take(0) =~= Seq::<SnapUnit>::empty());
    }
    while i < n
        invariant
            i <= n,
            cmds@ == spec_a_move(units@.take(i as int), position, queue),
        decreases n - i,
    {
        proof {
            assert(units@.take(i + 1).drop_last() =~= units@.take(i as int));
            assert(units@.take(i + 1).last() == units@[i as int]);
        }
        cmds.push(Command::Attack { unit: units[i].tag, target: Target::Ground(position), queue });
        i += 1;
    }
    proof {
        assert(units@.take(n as int) =~= units@);
    }
    cmds
}

} // verus!
