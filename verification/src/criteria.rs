use crate::dataset::Task;
use vstd::prelude::*;

verus! {

/// Every train example's output has the shape of its input.
pub open spec fn preserves_grid_size(task: Task) -> bool {
    forall|i: int|
        0 <= i < task.train@.len() ==> (#[trigger] task.train@[i]).input@.len()
            == task.train@[i].output@.len() && task.train@[i].input@[0].len()
            == task.train@[i].output@[0].len()
}

/// Whether, for every train example, the input size equals the output size.
pub fn train_preserves_grid_size(task: &Task) -> (holds: bool)
    requires
        task.wf(),
    ensures
        holds == preserves_grid_size(*task),
{
    let mut i: usize = 0;
    while i < task.train.len()
        invariant
            i <= task.train.len(),
            task.wf(),
            forall|j: int|
                0 <= j < i ==> (#[trigger] task.train@[j]).input@.len()
                    == task.train@[j].output@.len() && task.train@[j].input@[0].len()
                    == task.train@[j].output@[0].len(),
        decreases task.train.len() - i,
    {
        let example = &task.train[i];
        let a = example.input.shape();
        let b = example.output.shape();
        if a.0 != b.0 || a.1 != b.1 {
            return false;
        }
        i += 1;
    }
    true
}

} // verus!
