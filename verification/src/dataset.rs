use crate::grid::Grid;
use vstd::prelude::*;

verus! {

/// An input and the output expected for it.
#[derive(Debug, Clone)]
pub struct BaseTrainExample<T> {
    pub input: T,
    pub output: T,
}

/// An input whose output is to be predicted.
#[derive(Debug, Clone)]
pub struct BaseTestProblem<T> {
    pub input: T,
}

/// A task: its id, its train examples and its test problems, each in order.
#[derive(Debug, Clone)]
pub struct BaseTask<T> {
    pub id: String,
    pub train: Vec<BaseTrainExample<T>>,
    pub test: Vec<BaseTestProblem<T>>,
}

/// The expected outputs of a task's test problems.
#[derive(Debug, Clone)]
pub struct BaseSolution<T> {
    pub id: String,
    pub outputs: Vec<T>,
}

pub type TrainExample = BaseTrainExample<Grid>;

pub type TestProblem = BaseTestProblem<Grid>;

pub type Task = BaseTask<Grid>;

pub type Solution = BaseSolution<Grid>;

pub type ARCGrid = Vec<Vec<u8>>;

/// Tasks, and their solutions where they are known.
#[derive(Debug, Clone)]
pub struct Dataset {
    pub tasks: Vec<Task>,
    pub solutions: Option<Vec<Solution>>,
}

/// The place of the first task with the given id, if there is one.
pub open spec fn first_task_with(tasks: Seq<Task>, id: Seq<char>, at: int) -> bool {
    &&& 0 <= at < tasks.len()
    &&& tasks[at].id@ == id
    &&& forall|i: int| 0 <= i < at ==> (#[trigger] tasks[i]).id@ != id
}

/// The place of the first solution with the given id, if there is one.
pub open spec fn first_solution_with(solutions: Seq<Solution>, id: Seq<char>, at: int) -> bool {
    &&& 0 <= at < solutions.len()
    &&& solutions[at].id@ == id
    &&& forall|i: int| 0 <= i < at ==> (#[trigger] solutions[i]).id@ != id
}

impl Dataset {
    /// The first task with the given id.
    pub fn get_task(&self, id: &str) -> (found: Option<&Task>)
        ensures
            match found {
                Some(task) => exists|at: int|
                    first_task_with(self.tasks@, id@, at) && #[trigger] self.tasks@[at] == *task,
                None => forall|i: int|
                    0 <= i < self.tasks@.len() ==> (#[trigger] self.tasks@[i]).id@ != id@,
            },
    {
        let wanted: String = id.to_owned();
        let mut i: usize = 0;
        while i < self.tasks.len()
            invariant
                i <= self.tasks.len(),
                wanted@ == id@,
                forall|j: int| 0 <= j < i ==> (#[trigger] self.tasks@[j]).id@ != id@,
            decreases self.tasks.len() - i,
        {
            if self.tasks[i].id == wanted {
                assert(first_task_with(self.tasks@, id@, i as int));
                return Some(&self.tasks[i]);
            }
            i += 1;
        }
        None
    }

    /// The first solution with the given id, where solutions are known.
    pub fn get_solution(&self, id: &str) -> (found: Option<&Solution>)
        ensures
            match found {
                Some(solution) => self.solutions is Some && exists|at: int|
                    first_solution_with(self.solutions->Some_0@, id@, at)
                        && #[trigger] self.solutions->Some_0@[at] == *solution,
                None => self.solutions is Some ==> forall|i: int|
                    0 <= i < self.solutions->Some_0@.len() ==> (
                    #[trigger] self.solutions->Some_0@[i]).id@ != id@,
            },
    {
        match &self.solutions {
            None => None,
            Some(sols) => {
                let wanted: String = id.to_owned();
                let mut i: usize = 0;
                while i < sols.len()
                    invariant
                        i <= sols.len(),
                        self.solutions is Some,
                        self.solutions->Some_0@ == sols@,
                        wanted@ == id@,
                        forall|j: int| 0 <= j < i ==> (#[trigger] sols@[j]).id@ != id@,
                    decreases sols.len() - i,
                {
                    if sols[i].id == wanted {
                        assert(first_solution_with(sols@, id@, i as int));
                        assert(self.solutions->Some_0@ == sols@);
                        assert(self.solutions->Some_0@[i as int] == sols@[i as int]);
                        return Some(&sols[i]);
                    }
                    i += 1;
                }
                None
            },
        }
    }
}

impl BaseTask<Grid> {
    /// Every grid of the task is well formed.
    pub open spec fn wf(&self) -> bool {
        &&& forall|i: int|
            0 <= i < self.train@.len() ==> (#[trigger] self.train@[i]).input.wf()
                && self.train@[i].output.wf()
        &&& forall|i: int| 0 <= i < self.test@.len() ==> (#[trigger] self.test@[i]).input.wf()
    }

    /// Get the train outputs
    pub fn train_outputs(&self) -> (grids: Vec<&Grid>)
        ensures
            grids@.len() == self.train@.len(),
            forall|i: int| 0 <= i < grids@.len() ==> *(#[trigger] grids@[i]) == self.train@[i].output,
    {
        let mut grids: Vec<&Grid> = Vec::new();
        let mut i: usize = 0;
        while i < self.train.len()
            invariant
                i <= self.train.len(),
                grids@.len() == i,
                forall|j: int| 0 <= j < i ==> *(#[trigger] grids@[j]) == self.train@[j].output,
            decreases self.train.len() - i,
        {
            grids.push(&self.train[i].output);
            i += 1;
        }
        grids
    }

    /// Get the train inputs
    pub fn train_inputs(&self) -> (grids: Vec<&Grid>)
        ensures
            grids@.len() == self.train@.len(),
            forall|i: int| 0 <= i < grids@.len() ==> *(#[trigger] grids@[i]) == self.train@[i].input,
    {
        let mut grids: Vec<&Grid> = Vec::new();
        let mut i: usize = 0;
        while i < self.train.len()
            invariant
                i <= self.train.len(),
                grids@.len() == i,
                forall|j: int| 0 <= j < i ==> *(#[trigger] grids@[j]) == self.train@[j].input,
            decreases self.train.len() - i,
        {
            grids.push(&self.train[i].input);
            i += 1;
        }
        grids
    }

    /// Get the test_inputs
    pub fn test_inputs(&self) -> (grids: Vec<&Grid>)
        ensures
            grids@.len() == self.test@.len(),
            forall|i: int| 0 <= i < grids@.len() ==> *(#[trigger] grids@[i]) == self.test@[i].input,
    {
        let mut grids: Vec<&Grid> = Vec::new();
        let mut i: usize = 0;
        while i < self.test.len()
            invariant
                i <= self.test.len(),
                grids@.len() == i,
                forall|j: int| 0 <= j < i ==> *(#[trigger] grids@[j]) == self.test@[j].input,
            decreases self.test.len() - i,
        {
            grids.push(&self.test[i].input);
            i += 1;
        }
        grids
    }

    /// Get train inputs, train outputs, and test inputs
    pub fn problem_grids(&self) -> (grids: Vec<&Grid>)
        ensures
            grids@.len() == 2 * self.train@.len() + self.test@.len(),
            forall|i: int|
                0 <= i < self.train@.len() ==> *(#[trigger] grids@[i]) == self.train@[i].input,
            forall|i: int|
                0 <= i < self.train@.len() ==> *(#[trigger] grids@[self.train@.len() + i])
                    == self.train@[i].output,
            forall|i: int|
                0 <= i < self.test@.len() ==> *(#[trigger] grids@[2 * self.train@.len() + i])
                    == self.test@[i].input,
    {
        let mut grids = self.train_inputs();
        let mut outputs = self.train_outputs();
        let mut inputs = self.test_inputs();
        let ghost first = grids@;
        let ghost second = outputs@;
        let ghost third = inputs@;
        grids.append(&mut outputs);
        grids.append(&mut inputs);
        assert(grids@ =~= first + second + third);
        assert forall|i: int| 0 <= i < self.train@.len() implies *(#[trigger] grids@[self.train@.len()
            + i]) == self.train@[i].output by {
            assert(grids@[self.train@.len() + i] == second[i]);
        }
        assert forall|i: int| 0 <= i < self.test@.len() implies *(#[trigger] grids@[2
            * self.train@.len() + i]) == self.test@[i].input by {
            assert(grids@[2 * self.train@.len() + i] == third[i]);
        }
        grids
    }
}

/// Two attempts at one test output.
#[derive(Debug, Clone)]
pub struct TestSubmissionOutput {
    pub attempt_1: ARCGrid,
    pub attempt_2: ARCGrid,
}

/// A two by two grid of the background color.
pub open spec fn blank_attempt() -> Seq<Seq<u8>> {
    seq![seq![0u8, 0u8], seq![0u8, 0u8]]
}

impl Default for TestSubmissionOutput {
    fn default() -> (output: Self)
        ensures
            crate::grid::rows_of(output.attempt_1) == blank_attempt(),
            crate::grid::rows_of(output.attempt_2) == blank_attempt(),
    {
        let output = Self {
            attempt_1: vec![vec![0, 0], vec![0, 0]],
            attempt_2: vec![vec![0, 0], vec![0, 0]],
        };
        assert(crate::grid::rows_of(output.attempt_1) =~~= blank_attempt());
        assert(crate::grid::rows_of(output.attempt_2) =~~= blank_attempt());
        output
    }
}

} // verus!
