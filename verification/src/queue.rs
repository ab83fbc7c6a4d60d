//! The task registry: the authoritative set of in-flight image tasks.
//!
//! A [`TaskQueue`] hands out unique, strictly increasing ids, stores one
//! [`ImageTask`] per id, applies state transitions keyed by id, and answers
//! read-only queries. Mutations aimed at an id the registry does not hold are
//! deliberate no-ops: one bad id must never abort an otherwise healthy batch.
//!
//! The registry performs no I/O and never decodes or transforms pixels; it
//! only records state and takes ownership of the buffers the driver hands in.

use vstd::prelude::*;

use crate::error::TaskError;

verus! {

/// Where a task stands in the decode -> transform -> encode pipeline.
///
/// `Failed` carries the reason reported by the driver and is terminal by
/// convention; the registry itself does not re-validate transition order.
#[derive(Debug, PartialEq)]
pub enum TaskState {
    Pending,
    Decoded,
    Processed,
    Working,
    Failed(TaskError),
}

/// Declares the pixel-buffer type of the `image` crate.
///
/// Relies on `image::DynamicImage` only as an opaque value: the registry
/// stores buffers and moves them between owners, and never looks inside one.
#[verifier::external_type_specification]
#[verifier::external_body]
pub struct ExDynamicImage(image::DynamicImage);

/// One image's unit of work: its identity, paths, buffer slot and state.
#[derive(Debug, PartialEq)]
pub struct ImageTask {
    /// Unique within the registry, assigned at creation, never reused.
    pub id: u32,
    /// The pixel buffer; present only once the driver has handed one in.
    pub image: Option<image::DynamicImage>,
    /// Where the image's bytes are read from; never rewritten.
    pub image_path: String,
    /// Where the result is written; defaults to `image_path`.
    pub out_path: String,
    /// Current position in the task lifecycle.
    pub state: TaskState,
}

impl ImageTask {
    /// A fresh task: no buffer yet, both paths set to `path`, state `Pending`.
    pub fn new(id: u32, path: &str) -> (t: ImageTask)
        ensures
            t.id == id,
            t.image is None,
            t.image_path@ == path@,
            t.out_path@ == path@,
            t.state == TaskState::Pending,
    {
        ImageTask {
            id,
            image: None,
            image_path: path.to_string(),
            out_path: path.to_string(),
            state: TaskState::Pending,
        }
    }
}

/// `t` with its state replaced and everything else kept.
pub open spec fn with_state(t: ImageTask, s: TaskState) -> ImageTask {
    ImageTask { id: t.id, image: t.image, image_path: t.image_path, out_path: t.out_path, state: s }
}

/// `t` holding buffer `img` in state `s`, everything else kept.
pub open spec fn with_buffer(t: ImageTask, s: TaskState, img: Option<image::DynamicImage>) -> ImageTask {
    ImageTask { id: t.id, image: img, image_path: t.image_path, out_path: t.out_path, state: s }
}

/// `t` with its output path replaced and everything else kept.
pub open spec fn with_out_path(t: ImageTask, p: String) -> ImageTask {
    ImageTask { id: t.id, image: t.image, image_path: t.image_path, out_path: p, state: t.state }
}

/// `s` holds a task with id `id`.
pub open spec fn live(s: Seq<Option<ImageTask>>, id: u32) -> bool {
    &&& 1 <= id
    &&& id as int <= s.len()
    &&& s[id as int - 1] is Some
}

/// The task in `s` with id `id`.
pub open spec fn task_in(s: Seq<Option<ImageTask>>, id: u32) -> ImageTask
    recommends
        live(s, id),
{
    s[id as int - 1]->Some_0
}

/// Every task sits at the slot its id was issued for: slot `i` holds id
/// `i + 1`. Completion empties a slot but never moves its neighbours, so
/// this binding is stable for the registry's whole lifetime.
pub open spec fn ids_indexed(s: Seq<Option<ImageTask>>) -> bool {
    forall|i: int| #![trigger s[i]] 0 <= i < s.len() && s[i] is Some ==> s[i]->Some_0.id == i + 1
}

/// The failed tasks held in `s`, in id order.
pub open spec fn failed_seq(s: Seq<Option<ImageTask>>) -> Seq<ImageTask>
    decreases s.len(),
{
    if s.len() == 0 {
        Seq::empty()
    } else {
        let rest = failed_seq(s.drop_last());
        if s.last() is Some && s.last()->Some_0.state is Failed {
            rest.push(s.last()->Some_0)
        } else {
            rest
        }
    }
}

/// The processed tasks held in `s`, in id order.
pub open spec fn processed_seq(s: Seq<Option<ImageTask>>) -> Seq<ImageTask>
    decreases s.len(),
{
    if s.len() == 0 {
        Seq::empty()
    } else {
        let rest = processed_seq(s.drop_last());
        if s.last() is Some && s.last()->Some_0.state is Processed {
            rest.push(s.last()->Some_0)
        } else {
            rest
        }
    }
}

/// The decoded tasks held in `s`, in id order.
pub open spec fn decoded_seq(s: Seq<Option<ImageTask>>) -> Seq<ImageTask>
    decreases s.len(),
{
    if s.len() == 0 {
        Seq::empty()
    } else {
        let rest = decoded_seq(s.drop_last());
        if s.last() is Some && s.last()->Some_0.state is Decoded {
            rest.push(s.last()->Some_0)
        } else {
            rest
        }
    }
}

/// Scanning one more slot extends the failed selection by that slot's task
/// exactly when it holds a failed task.
proof fn lemma_failed_seq_take_step(s: Seq<Option<ImageTask>>, i: int)
    requires
        0 <= i < s.len(),
    ensures
        failed_seq(s.take(i + 1)) == if s[i] is Some && s[i]->Some_0.state is Failed {
            failed_seq(s.take(i)).push(s[i]->Some_0)
        } else {
            failed_seq(s.take(i))
        },
{
    assert(s.take(i + 1).drop_last() =~= s.take(i));
    assert(s.take(i + 1).last() == s[i]);
}

/// Counterpart of [`lemma_failed_seq_take_step`] for the processed selection.
proof fn lemma_processed_seq_take_step(s: Seq<Option<ImageTask>>, i: int)
    requires
        0 <= i < s.len(),
    ensures
        processed_seq(s.take(i + 1)) == if s[i] is Some && s[i]->Some_0.state is Processed {
            processed_seq(s.take(i)).push(s[i]->Some_0)
        } else {
            processed_seq(s.take(i))
        },
{
    assert(s.take(i + 1).drop_last() =~= s.take(i));
    assert(s.take(i + 1).last() == s[i]);
}

/// Counterpart of [`lemma_failed_seq_take_step`] for the decoded selection.
proof fn lemma_decoded_seq_take_step(s: Seq<Option<ImageTask>>, i: int)
    requires
        0 <= i < s.len(),
    ensures
        decoded_seq(s.take(i + 1)) == if s[i] is Some && s[i]->Some_0.state is Decoded {
            decoded_seq(s.take(i)).push(s[i]->Some_0)
        } else {
            decoded_seq(s.take(i))
        },
{
    assert(s.take(i + 1).drop_last() =~= s.take(i));
    assert(s.take(i + 1).last() == s[i]);
}

/// A prefix never selects more failed tasks than the whole.
proof fn lemma_failed_seq_take_len_le(s: Seq<Option<ImageTask>>, j: int)
    requires
        0 <= j <= s.len(),
    ensures
        failed_seq(s.take(j)).len() <= failed_seq(s).len(),
    decreases s.len() - j,
{
    if j == s.len() {
        assert(s.take(j) =~= s);
    } else {
        lemma_failed_seq_take_step(s, j);
        lemma_failed_seq_take_len_le(s, j + 1);
    }
}

/// Every selected failed task comes from a live slot of `s`, failed there.
pub proof fn lemma_failed_seq_membership(s: Seq<Option<ImageTask>>, k: int)
    requires
        0 <= k < failed_seq(s).len(),
    ensures
        exists|i: int|
            0 <= i < s.len() && s[i] is Some && s[i]->Some_0 == failed_seq(s)[k]
                && s[i]->Some_0.state is Failed,
    decreases s.len(),
{
    let rest = failed_seq(s.drop_last());
    if k < rest.len() {
        lemma_failed_seq_membership(s.drop_last(), k);
        let i = choose|i: int|
            0 <= i < s.drop_last().len() && s.drop_last()[i] is Some
                && s.drop_last()[i]->Some_0 == rest[k] && s.drop_last()[i]->Some_0.state is Failed;
        assert(s[i] == s.drop_last()[i]);
    } else {
        assert(s[s.len() - 1] == s.last());
    }
}

/// Every selected processed task comes from a live slot of `s`, processed there.
pub proof fn lemma_processed_seq_membership(s: Seq<Option<ImageTask>>, k: int)
    requires
        0 <= k < processed_seq(s).len(),
    ensures
        exists|i: int|
            0 <= i < s.len() && s[i] is Some && s[i]->Some_0 == processed_seq(s)[k]
                && s[i]->Some_0.state is Processed,
    decreases s.len(),
{
    let rest = processed_seq(s.drop_last());
    if k < rest.len() {
        lemma_processed_seq_membership(s.drop_last(), k);
        let i = choose|i: int|
            0 <= i < s.drop_last().len() && s.drop_last()[i] is Some
                && s.drop_last()[i]->Some_0 == rest[k]
                && s.drop_last()[i]->Some_0.state is Processed;
        assert(s[i] == s.drop_last()[i]);
    } else {
        assert(s[s.len() - 1] == s.last());
    }
}

/// Every selected decoded task comes from a live slot of `s`, decoded there.
pub proof fn lemma_decoded_seq_membership(s: Seq<Option<ImageTask>>, k: int)
    requires
        0 <= k < decoded_seq(s).len(),
    ensures
        exists|i: int|
            0 <= i < s.len() && s[i] is Some && s[i]->Some_0 == decoded_seq(s)[k]
                && s[i]->Some_0.state is Decoded,
    decreases s.len(),
{
    let rest = decoded_seq(s.drop_last());
    if k < rest.len() {
        lemma_decoded_seq_membership(s.drop_last(), k);
        let i = choose|i: int|
            0 <= i < s.drop_last().len() && s.drop_last()[i] is Some
                && s.drop_last()[i]->Some_0 == rest[k]
                && s.drop_last()[i]->Some_0.state is Decoded;
        assert(s[i] == s.drop_last()[i]);
    } else {
        assert(s[s.len() - 1] == s.last());
    }
}

/// The registry: an ordered collection of tasks keyed by id.
///
/// Slot `i` of the backing vector belongs to id `i + 1`; a completed task
/// leaves an empty slot behind so that later ids keep their places and no id
/// is ever reissued.
pub struct TaskQueue {
    tasks: Vec<Option<ImageTask>>,
    next_id: u32,
}

impl View for TaskQueue {
    type V = Seq<Option<ImageTask>>;

    /// A registry is observed as the sequence of its slots, one per issued id.
    closed spec fn view(&self) -> Seq<Option<ImageTask>> {
        self.tasks@
    }
}

impl TaskQueue {
    /// Validity: ids 1 through `len` have been issued, each bound to its slot.
    pub closed spec fn wf(&self) -> bool {
        &&& self.next_id as int == self@.len() + 1
        &&& ids_indexed(self@)
    }

    /// `self` holds a task with id `id`.
    pub open spec fn has_task(&self, id: u32) -> bool {
        live(self@, id)
    }

    /// The task held under `id`.
    pub open spec fn task_of(&self, id: u32) -> ImageTask
        recommends
            self.has_task(id),
    {
        task_in(self@, id)
    }

    /// An empty registry; the first task will get id 1.
    pub fn new() -> (q: TaskQueue)
        ensures
            q.wf(),
            q@ == Seq::<Option<ImageTask>>::empty(),
    {
        TaskQueue { tasks: Vec::new(), next_id: 1 }
    }

    /// Inserts a fresh `Pending` task for `path` and returns its id.
    ///
    /// Ids are issued in strictly increasing order starting from 1, with no
    /// gaps: the new id is one past the number of ids issued so far, and
    /// every id already present is smaller.
    pub fn new_task(&mut self, path: &str) -> (id: u32)
        requires
            old(self).wf(),
            old(self)@.len() + 2 <= u32::MAX,
        ensures
            final(self).wf(),
            id as int == old(self)@.len() + 1,
            final(self)@.len() == old(self)@.len() + 1,
            forall|i: int| 0 <= i < old(self)@.len() ==> final(self)@[i] == old(self)@[i],
            final(self).has_task(id),
            final(self).task_of(id).id == id,
            final(self).task_of(id).image is None,
            final(self).task_of(id).image_path@ == path@,
            final(self).task_of(id).out_path@ == path@,
            final(self).task_of(id).state == TaskState::Pending,
    {
        let task = ImageTask::new(self.next_id, path);
        self.tasks.push(Some(task));
        self.next_id += 1;
        self.next_id - 1
    }

    /// Marks the task as `Working` (decode or transform in flight).
    ///
    /// Does not touch the buffer; an unknown id changes nothing.
    pub fn working_task(&mut self, task_id: u32)
        requires
            old(self).wf(),
        ensures
            final(self).wf(),
            old(self).has_task(task_id) ==> final(self)@ == old(self)@.update(
                task_id as int - 1,
                Some(with_state(old(self).task_of(task_id), TaskState::Working)),
            ),
            !old(self).has_task(task_id) ==> final(self)@ == old(self)@,
    {
        let n = self.tasks.len();
        if 1 <= task_id && task_id as usize <= n {
            let i = (task_id as usize) - 1;
            match &mut self.tasks[i] {
                Some(t) => {
                    t.state = TaskState::Working;
                }
                None => {}
            }
            proof {
                if !old(self).has_task(task_id) {
                    assert(self@ =~= old(self)@);
                }
            }
        } else {
            proof {
                assert(self@ =~= old(self)@);
            }
        }
    }

    /// Removes the task from the registry, whatever its state.
    ///
    /// This is the only operation that shrinks the registry, and it is
    /// unconditional: a `Failed` task is removed just like a `Processed` one.
    /// The id's slot stays empty forever, so the id never resolves again.
    pub fn completed_task(&mut self, task_id: u32)
        requires
            old(self).wf(),
        ensures
            final(self).wf(),
            old(self).has_task(task_id) ==> final(self)@ == old(self)@.update(
                task_id as int - 1,
                None::<ImageTask>,
            ),
            !old(self).has_task(task_id) ==> final(self)@ == old(self)@,
            !final(self).has_task(task_id),
    {
        let n = self.tasks.len();
        if 1 <= task_id && task_id as usize <= n {
            let i = (task_id as usize) - 1;
            let slot = &mut self.tasks[i];
            match slot {
                Some(_) => {
                    *slot = None;
                }
                None => {}
            }
            proof {
                if !old(self).has_task(task_id) {
                    assert(self@ =~= old(self)@);
                }
            }
        } else {
            proof {
                assert(self@ =~= old(self)@);
            }
        }
    }

    /// Stores the decoded buffer in the task and marks it `Decoded`.
    ///
    /// Ownership of the buffer moves into the task: the caller's slot is
    /// empty afterwards, and whatever buffer the task held before is dropped.
    /// An unknown id changes nothing, and the caller keeps the buffer.
    pub fn decoded_task(&mut self, decoded_image: &mut Option<image::DynamicImage>, task_id: u32)
        requires
            old(self).wf(),
        ensures
            final(self).wf(),
            old(self).has_task(task_id) ==> {
                &&& final(self)@ == old(self)@.update(
                    task_id as int - 1,
                    Some(with_buffer(old(self).task_of(task_id), TaskState::Decoded, *old(decoded_image))),
                )
                &&& *final(decoded_image) is None
            },
            !old(self).has_task(task_id) ==> {
                &&& final(self)@ == old(self)@
                &&& *final(decoded_image) == *old(decoded_image)
            },
    {
        let n = self.tasks.len();
        if 1 <= task_id && task_id as usize <= n {
            let i = (task_id as usize) - 1;
            match &mut self.tasks[i] {
                Some(t) => {
                    t.state = TaskState::Decoded;
                    t.image = decoded_image.take();
                }
                None => {}
            }
            proof {
                if !old(self).has_task(task_id) {
                    assert(self@ =~= old(self)@);
                }
            }
        } else {
            proof {
                assert(self@ =~= old(self)@);
            }
        }
    }

    /// Stores the transformed buffer in the task and marks it `Processed`.
    ///
    /// Same ownership contract as [`TaskQueue::decoded_task`]: the buffer
    /// moves into the task and replaces whatever was held before.
    pub fn processed_task(&mut self, processed_image: &mut Option<image::DynamicImage>, task_id: u32)
        requires
            old(self).wf(),
        ensures
            final(self).wf(),
            old(self).has_task(task_id) ==> {
                &&& final(self)@ == old(self)@.update(
                    task_id as int - 1,
                    Some(with_buffer(old(self).task_of(task_id), TaskState::Processed, *old(processed_image))),
                )
                &&& *final(processed_image) is None
            },
            !old(self).has_task(task_id) ==> {
                &&& final(self)@ == old(self)@
                &&& *final(processed_image) == *old(processed_image)
            },
    {
        let n = self.tasks.len();
        if 1 <= task_id && task_id as usize <= n {
            let i = (task_id as usize) - 1;
            match &mut self.tasks[i] {
                Some(t) => {
                    t.state = TaskState::Processed;
                    t.image = processed_image.take();
                }
                None => {}
            }
            proof {
                if !old(self).has_task(task_id) {
                    assert(self@ =~= old(self)@);
                }
            }
        } else {
            proof {
                assert(self@ =~= old(self)@);
            }
        }
    }

    /// Marks the task `Failed` with the given reason, whatever its prior
    /// state; a later call simply replaces the reason.
    ///
    /// The buffer is left as it is (it is dropped on completion); an unknown
    /// id changes nothing.
    pub fn fail_task(&mut self, task_id: u32, task_error: &str)
        requires
            old(self).wf(),
        ensures
            final(self).wf(),
            old(self).has_task(task_id) ==> {
                &&& final(self)@ == old(self)@.update(
                    task_id as int - 1,
                    Some(with_state(old(self).task_of(task_id), final(self).task_of(task_id).state)),
                )
                &&& final(self).task_of(task_id).state matches TaskState::Failed(e)
                    && e.message_view() == task_error@
            },
            !old(self).has_task(task_id) ==> final(self)@ == old(self)@,
    {
        let n = self.tasks.len();
        if 1 <= task_id && task_id as usize <= n {
            let i = (task_id as usize) - 1;
            match &mut self.tasks[i] {
                Some(t) => {
                    t.state = TaskState::Failed(TaskError::SingleError(task_error.to_string()));
                }
                None => {}
            }
            proof {
                if !old(self).has_task(task_id) {
                    assert(self@ =~= old(self)@);
                }
            }
        } else {
            proof {
                assert(self@ =~= old(self)@);
            }
        }
    }

    /// Overwrites the task's output path with the caller's, taking it over;
    /// the caller's string is left empty.
    ///
    /// Used when a batch computes a per-file location inside an output
    /// directory. The source path and the state are untouched. An unknown id
    /// changes nothing, and the caller keeps the path.
    pub fn set_task_out_path(&mut self, task_id: u32, path: &mut String)
        requires
            old(self).wf(),
        ensures
            final(self).wf(),
            old(self).has_task(task_id) ==> {
                &&& final(self)@ == old(self)@.update(
                    task_id as int - 1,
                    Some(with_out_path(old(self).task_of(task_id), *old(path))),
                )
                &&& final(path)@ == Seq::<char>::empty()
            },
            !old(self).has_task(task_id) ==> {
                &&& final(self)@ == old(self)@
                &&& *final(path) == *old(path)
            },
    {
        let n = self.tasks.len();
        if 1 <= task_id && task_id as usize <= n {
            let i = (task_id as usize) - 1;
            match &mut self.tasks[i] {
                Some(t) => {
                    let mut taken = String::new();
                    core::mem::swap(path, &mut taken);
                    t.out_path = taken;
                }
                None => {}
            }
            proof {
                if !old(self).has_task(task_id) {
                    assert(self@ =~= old(self)@);
                }
            }
        } else {
            proof {
                assert(self@ =~= old(self)@);
            }
        }
    }

    /// Direct mutable access to one task, for reads and updates outside the
    /// canned transitions; `None` when the id is not held.
    ///
    /// The registry stays valid as long as the caller leaves the task's id
    /// alone; every other field may be rewritten freely.
    pub fn task_by_id_mut(&mut self, task_id: u32) -> (r: Option<&mut ImageTask>)
        requires
            old(self).wf(),
        ensures
            r is Some <==> old(self).has_task(task_id),
            r matches Some(t) ==> {
                &&& *t == old(self).task_of(task_id)
                &&& final(self)@ == old(self)@.update(task_id as int - 1, Some(*final(t)))
                &&& (final(t).id == task_id ==> final(self).wf())
            },
            r is None ==> final(self)@ == old(self)@ && final(self).wf(),
    {
        let n = self.tasks.len();
        if task_id < 1 || task_id as usize > n {
            proof {
                assert(self@ =~= old(self)@);
            }
            return None;
        }
        let i = (task_id as usize) - 1;
        if self.tasks[i].is_none() {
            proof {
                assert(self@ =~= old(self)@);
            }
            return None;
        }
        let slot = &mut self.tasks[i];
        slot.as_mut()
    }

    /// Whether any task currently held is `Failed`.
    pub fn has_failures(&self) -> (r: bool)
        ensures
            r == (failed_seq(self@).len() > 0),
    {
        let n = self.tasks.len();
        let mut i: usize = 0;
        while i < n
            invariant
                0 <= i <= n,
                n == self@.len(),
                failed_seq(self@.take(i as int)).len() == 0,
            decreases n - i,
        {
            match &self.tasks[i] {
                Some(t) => {
                    if matches!(t.state, TaskState::Failed(_)) {
                        proof {
                            lemma_failed_seq_take_step(self@, i as int);
                            lemma_failed_seq_take_len_le(self@, i + 1);
                        }
                        return true;
                    }
                }
                None => {}
            }
            proof {
                lemma_failed_seq_take_step(self@, i as int);
            }
            i += 1;
        }
        proof {
            assert(self@.take(n as int) =~= self@);
        }
        false
    }

    /// How many tasks currently held are `Failed`; always equal to the
    /// length of [`TaskQueue::failed_tasks`].
    pub fn count_failures(&self) -> (r: usize)
        ensures
            r == failed_seq(self@).len(),
    {
        self.failed_tasks().len()
    }

    /// The `Failed` tasks, in id order.
    pub fn failed_tasks(&self) -> (r: Vec<&ImageTask>)
        ensures
            r@.len() == failed_seq(self@).len(),
            forall|k: int| 0 <= k < r@.len() ==> *r@[k] == failed_seq(self@)[k],
    {
        let mut out: Vec<&ImageTask> = Vec::new();
        let n = self.tasks.len();
        let mut i: usize = 0;
        while i < n
            invariant
                0 <= i <= n,
                n == self@.len(),
                out@.len() == failed_seq(self@.take(i as int)).len(),
                forall|k: int| 0 <= k < out@.len() ==> *out@[k] == failed_seq(self@.take(i as int))[k],
            decreases n - i,
        {
            match &self.tasks[i] {
                Some(t) => {
                    if matches!(t.state, TaskState::Failed(_)) {
                        out.push(t);
                    }
                }
                None => {}
            }
            proof {
                lemma_failed_seq_take_step(self@, i as int);
            }
            i += 1;
        }
        proof {
            assert(self@.take(n as int) =~= self@);
        }
        out
    }

    /// The `Processed` tasks, in id order; these are the outputs still to be
    /// encoded and written.
    pub fn processed_tasks(&self) -> (r: Vec<&ImageTask>)
        ensures
            r@.len() == processed_seq(self@).len(),
            forall|k: int| 0 <= k < r@.len() ==> *r@[k] == processed_seq(self@)[k],
    {
        let mut out: Vec<&ImageTask> = Vec::new();
        let n = self.tasks.len();
        let mut i: usize = 0;
        while i < n
            invariant
                0 <= i <= n,
                n == self@.len(),
                out@.len() == processed_seq(self@.take(i as int)).len(),
                forall|k: int|
                    0 <= k < out@.len() ==> *out@[k] == processed_seq(self@.take(i as int))[k],
            decreases n - i,
        {
            match &self.tasks[i] {
                Some(t) => {
                    if matches!(t.state, TaskState::Processed) {
                        out.push(t);
                    }
                }
                None => {}
            }
            proof {
                lemma_processed_seq_take_step(self@, i as int);
            }
            i += 1;
        }
        proof {
            assert(self@.take(n as int) =~= self@);
        }
        out
    }

    /// The `Decoded` tasks, in id order; these are the inputs waiting for a
    /// transform.
    pub fn decoded_tasks(&self) -> (r: Vec<&ImageTask>)
        ensures
            r@.len() == decoded_seq(self@).len(),
            forall|k: int| 0 <= k < r@.len() ==> *r@[k] == decoded_seq(self@)[k],
    {
        let mut out: Vec<&ImageTask> = Vec::new();
        let n = self.tasks.len();
        let mut i: usize = 0;
        while i < n
            invariant
                0 <= i <= n,
                n == self@.len(),
                out@.len() == decoded_seq(self@.take(i as int)).len(),
                forall|k: int|
                    0 <= k < out@.len() ==> *out@[k] == decoded_seq(self@.take(i as int))[k],
            decreases n - i,
        {
            match &self.tasks[i] {
                Some(t) => {
                    if matches!(t.state, TaskState::Decoded) {
                        out.push(t);
                    }
                }
                None => {}
            }
            proof {
                lemma_decoded_seq_take_step(self@, i as int);
            }
            i += 1;
        }
        proof {
            assert(self@.take(n as int) =~= self@);
        }
        out
    }

    /// The ids of the `Decoded` tasks, in id order.
    pub fn decoded_task_ids(&self) -> (r: Vec<u32>)
        ensures
            r@.len() == decoded_seq(self@).len(),
            forall|k: int| 0 <= k < r@.len() ==> r@[k] == decoded_seq(self@)[k].id,
    {
        let mut out: Vec<u32> = Vec::new();
        let n = self.tasks.len();
        let mut i: usize = 0;
        while i < n
            invariant
                0 <= i <= n,
                n == self@.len(),
                out@.len() == decoded_seq(self@.take(i as int)).len(),
                forall|k: int|
                    0 <= k < out@.len() ==> out@[k] == decoded_seq(self@.take(i as int))[k].id,
            decreases n - i,
        {
            match &self.tasks[i] {
                Some(t) => {
                    if matches!(t.state, TaskState::Decoded) {
                        out.push(t.id);
                    }
                }
                None => {}
            }
            proof {
                lemma_decoded_seq_take_step(self@, i as int);
            }
            i += 1;
        }
        proof {
            assert(self@.take(n as int) =~= self@);
        }
        out
    }
}

/// A valid registry binds every task to the slot its id was issued for.
pub proof fn lemma_wf_ids_indexed(q: &TaskQueue)
    requires
        q.wf(),
    ensures
        ids_indexed(q@),
{
}

/// Law: a registry never holds two tasks with the same id.
pub proof fn lemma_ids_unique(q: &TaskQueue)
    requires
        q.wf(),
    ensures
        forall|i: int, j: int|
            0 <= i < j < q@.len() && q@[i] is Some && q@[j] is Some
                ==> q@[i]->Some_0.id != q@[j]->Some_0.id,
{
}

/// Law: an id about to be issued is strictly larger than every id the
/// registry holds, so ids returned by `new_task` strictly increase: the slot
/// count never shrinks, and each new id is one past it.
pub proof fn lemma_new_id_exceeds_live(q: &TaskQueue, id: u32)
    requires
        q.wf(),
        id as int == q@.len() + 1,
    ensures
        forall|i: int| 0 <= i < q@.len() && q@[i] is Some ==> q@[i]->Some_0.id < id,
{
}

/// Law: handing a task a second buffer replaces the first entirely. Decoding
/// with `b1` and then processing with `b2` leaves the registry exactly as if
/// the task had been processed with `b2` alone, and the task stores `b2`.
pub proof fn lemma_second_buffer_wins(
    s: Seq<Option<ImageTask>>,
    id: u32,
    b1: Option<image::DynamicImage>,
    b2: Option<image::DynamicImage>,
)
    requires
        live(s, id),
    ensures
        ({
            let after_decode = s.update(
                id as int - 1,
                Some(with_buffer(task_in(s, id), TaskState::Decoded, b1)),
            );
            let after_process = after_decode.update(
                id as int - 1,
                Some(with_buffer(task_in(after_decode, id), TaskState::Processed, b2)),
            );
            &&& task_in(after_process, id).image == b2
            &&& after_process == s.update(
                id as int - 1,
                Some(with_buffer(task_in(s, id), TaskState::Processed, b2)),
            )
        }),
{
    let after_decode = s.update(
        id as int - 1,
        Some(with_buffer(task_in(s, id), TaskState::Decoded, b1)),
    );
    let after_process = after_decode.update(
        id as int - 1,
        Some(with_buffer(task_in(after_decode, id), TaskState::Processed, b2)),
    );
    assert(after_process =~= s.update(
        id as int - 1,
        Some(with_buffer(task_in(s, id), TaskState::Processed, b2)),
    ));
}

/// Law: failing a task twice leaves the registry exactly as if only the
/// second failure had happened; the most recent reason wins.
pub proof fn lemma_fail_twice_keeps_last(
    s: Seq<Option<ImageTask>>,
    id: u32,
    e1: TaskError,
    e2: TaskError,
)
    requires
        live(s, id),
    ensures
        ({
            let once = s.update(
                id as int - 1,
                Some(with_state(task_in(s, id), TaskState::Failed(e1))),
            );
            let twice = once.update(
                id as int - 1,
                Some(with_state(task_in(once, id), TaskState::Failed(e2))),
            );
            twice == s.update(
                id as int - 1,
                Some(with_state(task_in(s, id), TaskState::Failed(e2))),
            )
        }),
{
    let once = s.update(id as int - 1, Some(with_state(task_in(s, id), TaskState::Failed(e1))));
    let twice = once.update(
        id as int - 1,
        Some(with_state(task_in(once, id), TaskState::Failed(e2))),
    );
    assert(twice =~= s.update(
        id as int - 1,
        Some(with_state(task_in(s, id), TaskState::Failed(e2))),
    ));
}

/// Law: once an id has been completed it resolves to nothing, and no query
/// ever yields it again; completing an id the registry does not hold changes
/// nothing, and no query yields that id either.
pub proof fn lemma_completed_id_gone(s: Seq<Option<ImageTask>>, id: u32)
    requires
        ids_indexed(s),
    ensures
        ({
            let s2 = if live(s, id) {
                s.update(id as int - 1, None::<ImageTask>)
            } else {
                s
            };
            &&& !live(s2, id)
            &&& forall|k: int|
                0 <= k < failed_seq(s2).len() ==> (#[trigger] failed_seq(s2)[k]).id != id
            &&& forall|k: int|
                0 <= k < processed_seq(s2).len() ==> (#[trigger] processed_seq(s2)[k]).id != id
            &&& forall|k: int|
                0 <= k < decoded_seq(s2).len() ==> (#[trigger] decoded_seq(s2)[k]).id != id
        }),
{
    let s2 = if live(s, id) {
        s.update(id as int - 1, None::<ImageTask>)
    } else {
        s
    };
    assert(ids_indexed(s2));
    assert forall|k: int|
        0 <= k < failed_seq(s2).len() implies (#[trigger] failed_seq(s2)[k]).id != id by {
        lemma_failed_seq_membership(s2, k);
        let i = choose|i: int|
            0 <= i < s2.len() && s2[i] is Some && s2[i]->Some_0 == failed_seq(s2)[k]
                && s2[i]->Some_0.state is Failed;
        assert(s2[i]->Some_0.id == i + 1);
        assert(i + 1 != id);
    }
    assert forall|k: int|
        0 <= k < processed_seq(s2).len() implies (#[trigger] processed_seq(s2)[k]).id != id by {
        lemma_processed_seq_membership(s2, k);
        let i = choose|i: int|
            0 <= i < s2.len() && s2[i] is Some && s2[i]->Some_0 == processed_seq(s2)[k]
                && s2[i]->Some_0.state is Processed;
        assert(s2[i]->Some_0.id == i + 1);
    }
    assert forall|k: int|
        0 <= k < decoded_seq(s2).len() implies (#[trigger] decoded_seq(s2)[k]).id != id by {
        lemma_decoded_seq_membership(s2, k);
        let i = choose|i: int|
            0 <= i < s2.len() && s2[i] is Some && s2[i]->Some_0 == decoded_seq(s2)[k]
                && s2[i]->Some_0.state is Decoded;
        assert(s2[i]->Some_0.id == i + 1);
    }
}

} // verus!
