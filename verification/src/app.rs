use vstd::prelude::*;
use vstd::string::*;
use std::sync::mpsc::Receiver;
use std::sync::mpsc::TryRecvError;
use tokio::task::JoinHandle;
use crate::image::{Image, ImageView};
use crate::project::{Project, ProjectView};

verus! {

#[verifier::external_type_specification]
#[verifier::external_body]
#[verifier::reject_recursive_types(T)]
pub struct ExReceiver<T>(Receiver<T>);

#[verifier::external_type_specification]
#[verifier::external_body]
#[verifier::reject_recursive_types(T)]
pub struct ExJoinHandle<T>(JoinHandle<T>);

#[verifier::external_type_specification]
#[verifier::external_body]
pub struct ExJoinError(tokio::task::JoinError);

/// The one envelope a background unit sends back when it finishes.
#[derive(PartialEq)]
pub enum Response {
    Nothing,
    Image(Image),
    Project(Project),
    RemoveProject(u64),
    Error(String),
}

pub ghost enum ResponseView {
    Nothing,
    Image(ImageView),
    Project(ProjectView),
    RemoveProject(u64),
    Error(Seq<char>),
}

impl View for Response {
    type V = ResponseView;

    open spec fn view(&self) -> ResponseView {
        match self {
            Response::Nothing => ResponseView::Nothing,
            Response::Image(img) => ResponseView::Image(img@),
            Response::Project(p) => ResponseView::Project(p@),
            Response::RemoveProject(id) => ResponseView::RemoveProject(*id),
            Response::Error(e) => ResponseView::Error(e@),
        }
    }
}

/// What one non-blocking poll of a task's channel observed.
pub enum PollOutcome {
    /// The unit finished and its envelope arrived.
    Ready(Response),
    /// No value yet; the unit is still running.
    Pending,
    /// The unit terminated without sending.
    Closed,
}

/// A live background task: the receiving end of its single-use channel,
/// and a join token for the execution unit (`None` for a detached unit).
pub struct TaskHandle {
    pub receiver: Receiver<Response>,
    pub unit: Option<JoinHandle<()>>,
}

/// Relies on `std::sync::mpsc::Receiver::try_recv`: it returns a sent value
/// without blocking, or reports that none has arrived yet, or that the
/// sender is gone. Which of the three happens depends on the background
/// unit, so nothing is promised of the outcome.
#[verifier::external_body]
fn poll_handle(t: &TaskHandle) -> PollOutcome {
    match t.receiver.try_recv() {
        Ok(response) => PollOutcome::Ready(response),
        Err(TryRecvError::Empty) => PollOutcome::Pending,
        Err(TryRecvError::Disconnected) => PollOutcome::Closed,
    }
}

/// The mathematical state of the application: everything a reconciliation
/// pass may change, with the live task handles left out.
pub ghost struct Model {
    pub projects: Seq<ProjectView>,
    pub selected: Option<int>,
    pub errors: Seq<Seq<char>>,
    pub log_stale_drops: bool,
}

pub open spec fn model_wf(m: Model) -> bool {
    m.selected matches Some(i) ==> 0 <= i < m.projects.len()
}

/// The index of the first project with the given identity.
pub open spec fn find_project(projects: Seq<ProjectView>, id: u64) -> Option<int>
    decreases projects.len(),
{
    if projects.len() == 0 {
        None
    } else if projects[0].id == id {
        Some(0int)
    } else {
        match find_project(projects.subrange(1, projects.len() as int), id) {
            None => None,
            Some(j) => Some(j + 1),
        }
    }
}

/// The diagnostic recorded when an image arrives after its target project
/// is gone and such drops are being logged.
pub open spec fn stale_note(img: ImageView) -> Seq<char> {
    "image dropped, no project selected: "@ + img.name
}

/// The state-transition table: what one envelope does to the state.
///
/// An image goes to the selected project; with no selection it is dropped
/// (noted in the error log only when `log_stale_drops` is set). A project is
/// appended. A removal takes out the first project with that identity, if
/// any, clearing the selection when it pointed at that project and shifting
/// it when it pointed past it. An error is appended to the error log.
pub open spec fn apply_spec(m: Model, r: ResponseView) -> Model {
    match r {
        ResponseView::Nothing => m,
        ResponseView::Image(img) => match m.selected {
            Some(i) => Model {
                projects: m.projects.update(
                    i,
                    (ProjectView {
                        id: m.projects[i].id,
                        name: m.projects[i].name,
                        description: m.projects[i].description,
                        images: m.projects[i].images.push(img),
                        links: m.projects[i].links,
                    }),
                ),
                selected: m.selected,
                errors: m.errors,
                log_stale_drops: m.log_stale_drops,
            },
            None => if m.log_stale_drops {
                Model {
                    projects: m.projects,
                    selected: m.selected,
                    errors: m.errors.push(stale_note(img)),
                    log_stale_drops: m.log_stale_drops,
                }
            } else {
                m
            },
        },
        ResponseView::Project(p) => Model {
            projects: m.projects.push(p),
            selected: m.selected,
            errors: m.errors,
            log_stale_drops: m.log_stale_drops,
        },
        ResponseView::RemoveProject(id) => match find_project(m.projects, id) {
            None => m,
            Some(pos) => Model {
                projects: m.projects.remove(pos),
                selected: match m.selected {
                    None => None,
                    Some(sel) => if sel == pos {
                        None
                    } else if sel > pos {
                        Some(sel - 1)
                    } else {
                        Some(sel)
                    },
                },
                errors: m.errors,
                log_stale_drops: m.log_stale_drops,
            },
        },
        ResponseView::Error(e) => Model {
            projects: m.projects,
            selected: m.selected,
            errors: m.errors.push(e),
            log_stale_drops: m.log_stale_drops,
        },
    }
}

/// The state after a sequence of envelopes, applied in order.
pub open spec fn apply_all(m: Model, rs: Seq<ResponseView>) -> Model
    decreases rs.len(),
{
    if rs.len() == 0 {
        m
    } else {
        apply_all(apply_spec(m, rs[0]), rs.subrange(1, rs.len() as int))
    }
}

/// The handles a reconciliation pass keeps: exactly those whose poll found
/// the unit still running, in their original order.
pub open spec fn retained(ts: Seq<TaskHandle>, o: Seq<PollOutcome>) -> Seq<TaskHandle>
    decreases o.len(),
{
    if o.len() == 0 || ts.len() == 0 {
        Seq::empty()
    } else {
        let rest = retained(ts.subrange(1, ts.len() as int), o.subrange(1, o.len() as int));
        if o[0] is Pending {
            seq![ts[0]] + rest
        } else {
            rest
        }
    }
}

/// The envelopes a reconciliation pass applies: the arrived ones, in
/// registry order.
pub open spec fn responses_of(o: Seq<PollOutcome>) -> Seq<ResponseView>
    decreases o.len(),
{
    if o.len() == 0 {
        Seq::empty()
    } else {
        let rest = responses_of(o.subrange(1, o.len() as int));
        match o[0] {
            PollOutcome::Ready(r) => seq![r@] + rest,
            _ => rest,
        }
    }
}

/// The UI-owned application state: the domain records, the selection, the
/// registry of live background tasks, and the diagnostics log. Only the
/// reconciliation pass mutates the record collections.
pub struct Portfolio {
    pub projects: Vec<Project>,
    pub project_id: Option<usize>,
    pub tasks: Vec<TaskHandle>,
    pub errors: Vec<String>,
    /// Whether an image that arrives with no project selected leaves a
    /// diagnostic behind, instead of vanishing silently.
    pub log_stale_drops: bool,
}

/// One reconciliation pass, described by the outcome each handle's poll
/// observed: exactly the pending handles stay, in order, and the arrived
/// envelopes are applied to the state in registry order, each once.
pub open spec fn reconciled(pre: Portfolio, post: Portfolio, o: Seq<PollOutcome>) -> bool {
    &&& o.len() == pre.tasks@.len()
    &&& post.tasks@ == retained(pre.tasks@, o)
    &&& post.model() == apply_all(pre.model(), responses_of(o))
}

proof fn lemma_retained_snoc(ts: Seq<TaskHandle>, o: Seq<PollOutcome>, t: TaskHandle, x: PollOutcome)
    requires
        ts.len() == o.len(),
    ensures
        retained(ts.push(t), o.push(x)) == retained(ts, o) + (if x is Pending {
            seq![t]
        } else {
            Seq::<TaskHandle>::empty()
        }),
    decreases o.len(),
{
    let tail = (if x is Pending {
        seq![t]
    } else {
        Seq::<TaskHandle>::empty()
    });
    if o.len() == 0 {
        assert(ts.push(t)[0] == t);
        assert(ts.push(t).subrange(1, 1) =~= Seq::<TaskHandle>::empty());
        assert(o.push(x).subrange(1, 1) =~= Seq::<PollOutcome>::empty());
        assert(retained(Seq::<TaskHandle>::empty(), Seq::<PollOutcome>::empty())
            == Seq::<TaskHandle>::empty());
        assert(retained(ts, o) == Seq::<TaskHandle>::empty());
        assert(retained(ts.push(t), o.push(x)) =~= retained(ts, o) + tail);
    } else {
        let ts1 = ts.subrange(1, ts.len() as int);
        let o1 = o.subrange(1, o.len() as int);
        lemma_retained_snoc(ts1, o1, t, x);
        assert(ts.push(t).subrange(1, ts.len() as int + 1) =~= ts1.push(t));
        assert(o.push(x).subrange(1, o.len() as int + 1) =~= o1.push(x));
        assert(o.push(x)[0] == o[0]);
        assert(ts.push(t)[0] == ts[0]);
        assert(retained(ts1.push(t), o1.push(x)) == retained(ts1, o1) + tail);
        if o[0] is Pending {
            assert(retained(ts.push(t), o.push(x)) == seq![ts[0]] + retained(
                ts1.push(t),
                o1.push(x),
            ));
            assert(retained(ts, o) == seq![ts[0]] + retained(ts1, o1));
            assert(retained(ts.push(t), o.push(x)) =~= retained(ts, o) + tail);
        } else {
            assert(retained(ts.push(t), o.push(x)) == retained(ts1.push(t), o1.push(x)));
            assert(retained(ts, o) == retained(ts1, o1));
            assert(retained(ts.push(t), o.push(x)) =~= retained(ts, o) + tail);
        }
    }
}

proof fn lemma_responses_snoc(o: Seq<PollOutcome>, x: PollOutcome)
    ensures
        responses_of(o.push(x)) == responses_of(o) + (match x {
            PollOutcome::Ready(r) => seq![r@],
            _ => Seq::<ResponseView>::empty(),
        }),
    decreases o.len(),
{
    let tail = (match x {
        PollOutcome::Ready(r) => seq![r@],
        _ => Seq::<ResponseView>::empty(),
    });
    if o.len() == 0 {
        assert(o.push(x)[0] == x);
        assert(o.push(x).subrange(1, 1) =~= Seq::<PollOutcome>::empty());
        assert(responses_of(Seq::<PollOutcome>::empty()) == Seq::<ResponseView>::empty());
        assert(responses_of(o) == Seq::<ResponseView>::empty());
        assert(responses_of(o.push(x)) =~= responses_of(o) + tail);
    } else {
        let o1 = o.subrange(1, o.len() as int);
        lemma_responses_snoc(o1, x);
        assert(o.push(x).subrange(1, o.len() as int + 1) =~= o1.push(x));
        assert(o.push(x)[0] == o[0]);
        assert(responses_of(o1.push(x)) == responses_of(o1) + tail);
        match o[0] {
            PollOutcome::Ready(r0) => {
                assert(responses_of(o.push(x)) == seq![r0@] + responses_of(o1.push(x)));
                assert(responses_of(o) == seq![r0@] + responses_of(o1));
            },
            _ => {
                assert(responses_of(o.push(x)) == responses_of(o1.push(x)));
                assert(responses_of(o) == responses_of(o1));
            },
        }
        assert(responses_of(o.push(x)) =~= responses_of(o) + tail);
    }
}

proof fn lemma_apply_all_snoc(m: Model, rs: Seq<ResponseView>, r: ResponseView)
    ensures
        apply_all(m, rs.push(r)) == apply_spec(apply_all(m, rs), r),
    decreases rs.len(),
{
    if rs.len() == 0 {
        assert(rs.push(r).subrange(1, 1) =~= Seq::<ResponseView>::empty());
        assert(rs.push(r)[0] == r);
        assert(apply_all(m, rs) == m);
        assert(apply_all(apply_spec(m, r), Seq::<ResponseView>::empty()) == apply_spec(m, r));
    } else {
        let rs1 = rs.subrange(1, rs.len() as int);
        lemma_apply_all_snoc(apply_spec(m, rs[0]), rs1, r);
        assert(rs.push(r).subrange(1, rs.len() as int + 1) =~= rs1.push(r));
        assert(rs.push(r)[0] == rs[0]);
        assert(apply_all(m, rs.push(r)) == apply_all(apply_spec(m, rs[0]), rs1.push(r)));
        assert(apply_all(m, rs) == apply_all(apply_spec(m, rs[0]), rs1));
    }
}

/// The positions (in ascending order) whose poll observed a still-pending
/// unit.
pub open spec fn pending_indices(o: Seq<PollOutcome>) -> Seq<int>
    decreases o.len(),
{
    if o.len() == 0 {
        Seq::empty()
    } else {
        let rest = pending_indices(o.subrange(1, o.len() as int)).map_values(|j: int| j + 1);
        if o[0] is Pending {
            seq![0int] + rest
        } else {
            rest
        }
    }
}

/// The positions (in ascending order) whose poll observed an arrived
/// envelope.
pub open spec fn ready_indices(o: Seq<PollOutcome>) -> Seq<int>
    decreases o.len(),
{
    if o.len() == 0 {
        Seq::empty()
    } else {
        let rest = ready_indices(o.subrange(1, o.len() as int)).map_values(|j: int| j + 1);
        if o[0] is Ready {
            seq![0int] + rest
        } else {
            rest
        }
    }
}

/// No double-removal and no skip: however completed and pending handles are
/// interleaved, one reconciliation pass keeps exactly the handles whose
/// poll observed a pending unit -- each at its place, in the original
/// order -- and removes exactly the others.
pub proof fn lemma_no_skip_no_double_removal(ts: Seq<TaskHandle>, o: Seq<PollOutcome>)
    requires
        ts.len() == o.len(),
    ensures
        retained(ts, o).len() == pending_indices(o).len(),
        forall|k: int|
            0 <= k < pending_indices(o).len() ==> 0 <= #[trigger] pending_indices(o)[k]
                < o.len() && o[pending_indices(o)[k]] is Pending && retained(ts, o)[k] == ts[
                pending_indices(o)[k]
            ],
        forall|k1: int, k2: int|
            0 <= k1 < k2 < pending_indices(o).len() ==> #[trigger] pending_indices(o)[k1]
                < #[trigger] pending_indices(o)[k2],
        forall|i: int| 0 <= i < o.len() && o[i] is Pending ==> pending_indices(o).contains(i),
    decreases o.len(),
{
    if o.len() == 0 {
    } else {
        let o1 = o.subrange(1, o.len() as int);
        let ts1 = ts.subrange(1, ts.len() as int);
        lemma_no_skip_no_double_removal(ts1, o1);
        let pi1 = pending_indices(o1);
        let rest = pi1.map_values(|j: int| j + 1);
        let pi = pending_indices(o);
        let r1 = retained(ts1, o1);
        assert forall|k: int| 0 <= k < pi.len() implies 0 <= #[trigger] pi[k] < o.len()
            && o[pi[k]] is Pending && retained(ts, o)[k] == ts[pi[k]] by {
            if o[0] is Pending {
                if k > 0 {
                    assert(pi[k] == pi1[k - 1] + 1);
                    assert(retained(ts, o)[k] == r1[k - 1]);
                }
            } else {
                assert(pi[k] == pi1[k] + 1);
                assert(retained(ts, o)[k] == r1[k]);
            }
        }
        assert forall|k1: int, k2: int| 0 <= k1 < k2 < pi.len() implies #[trigger] pi[k1]
            < #[trigger] pi[k2] by {
            if o[0] is Pending {
                if k1 > 0 {
                    assert(pi1[k1 - 1] < pi1[k2 - 1]);
                } else {
                    assert(pi[k2] == pi1[k2 - 1] + 1);
                    assert(0 <= pi1[k2 - 1]);
                }
            } else {
                assert(pi1[k1] < pi1[k2]);
            }
        }
        assert forall|i: int| 0 <= i < o.len() && o[i] is Pending implies pi.contains(i) by {
            if i == 0 {
                assert(o[0] is Pending);
                assert(pi[0] == 0);
            } else {
                assert(o1[i - 1] == o[i]);
                assert(pi1.contains(i - 1));
                let k = choose|k: int| 0 <= k < pi1.len() && pi1[k] == i - 1;
                if o[0] is Pending {
                    assert(pi[k + 1] == rest[k] == i);
                } else {
                    assert(pi[k] == rest[k] == i);
                }
            }
        }
    }
}

/// At-most-once application: a reconciliation pass applies one envelope for
/// the `i`th handle exactly when its poll observed `Ready`, in registry
/// order -- so the arrived envelopes are applied once each, and a handle
/// whose envelope has not arrived contributes nothing, however many frames
/// it is polled. Together with `lemma_no_skip_no_double_removal`, the
/// handles whose envelopes were applied are exactly the ones removed, so no
/// later pass can apply them again.
pub proof fn lemma_at_most_once(o: Seq<PollOutcome>)
    ensures
        responses_of(o).len() == ready_indices(o).len(),
        forall|k: int|
            0 <= k < ready_indices(o).len() ==> 0 <= #[trigger] ready_indices(o)[k] < o.len()
                && o[ready_indices(o)[k]] is Ready && responses_of(o)[k] == view_of(
                o[ready_indices(o)[k]],
            ),
        forall|k1: int, k2: int|
            0 <= k1 < k2 < ready_indices(o).len() ==> #[trigger] ready_indices(o)[k1]
                < #[trigger] ready_indices(o)[k2],
        forall|i: int| 0 <= i < o.len() && o[i] is Ready ==> ready_indices(o).contains(i),
    decreases o.len(),
{
    if o.len() == 0 {
    } else {
        let o1 = o.subrange(1, o.len() as int);
        lemma_at_most_once(o1);
        let ri1 = ready_indices(o1);
        let rest = ri1.map_values(|j: int| j + 1);
        let ri = ready_indices(o);
        assert forall|k: int| 0 <= k < ri.len() implies 0 <= #[trigger] ri[k] < o.len()
            && o[ri[k]] is Ready && responses_of(o)[k] == view_of(o[ri[k]]) by {
            if o[0] is Ready {
                if k > 0 {
                    assert(ri[k] == ri1[k - 1] + 1);
                    assert(responses_of(o)[k] == responses_of(o1)[k - 1]);
                }
            } else {
                assert(ri[k] == ri1[k] + 1);
                assert(responses_of(o)[k] == responses_of(o1)[k]);
            }
        }
        assert forall|k1: int, k2: int| 0 <= k1 < k2 < ri.len() implies #[trigger] ri[k1]
            < #[trigger] ri[k2] by {
            if o[0] is Ready {
                if k1 > 0 {
                    assert(ri1[k1 - 1] < ri1[k2 - 1]);
                } else {
                    assert(ri[k2] == ri1[k2 - 1] + 1);
                    assert(0 <= ri1[k2 - 1]);
                }
            } else {
                assert(ri1[k1] < ri1[k2]);
            }
        }
        assert forall|i: int| 0 <= i < o.len() && o[i] is Ready implies ri.contains(i) by {
            if i == 0 {
                assert(ri[0] == 0);
            } else {
                assert(o1[i - 1] == o[i]);
                assert(ri1.contains(i - 1));
                let k = choose|k: int| 0 <= k < ri1.len() && ri1[k] == i - 1;
                if o[0] is Ready {
                    assert(ri[k + 1] == rest[k] == i);
                } else {
                    assert(ri[k] == rest[k] == i);
                }
            }
        }
    }
}

/// The envelope inside a `Ready` outcome.
pub open spec fn view_of(x: PollOutcome) -> ResponseView
    recommends
        x is Ready,
{
    match x {
        PollOutcome::Ready(r) => r@,
        _ => ResponseView::Nothing,
    }
}

/// A pass in which nothing has arrived changes nothing: every handle stays,
/// in order, and the state is untouched -- polling before arrival, for any
/// number of frames, applies no envelope.
pub proof fn lemma_pending_pass_is_noop(m: Model, ts: Seq<TaskHandle>, o: Seq<PollOutcome>)
    requires
        ts.len() == o.len(),
        forall|i: int| 0 <= i < o.len() ==> o[i] is Pending,
    ensures
        retained(ts, o) == ts,
        apply_all(m, responses_of(o)) == m,
    decreases o.len(),
{
    if o.len() == 0 {
        assert(retained(ts, o) =~= ts);
    } else {
        let o1 = o.subrange(1, o.len() as int);
        let ts1 = ts.subrange(1, ts.len() as int);
        lemma_pending_pass_is_noop(m, ts1, o1);
        assert(retained(ts, o) =~= ts);
        assert(responses_of(o) == responses_of(o1));
    }
}

/// Idempotent no-op: applying `Nothing` any number of times in sequence
/// leaves the state unchanged.
pub proof fn lemma_nothing_is_noop(m: Model, rs: Seq<ResponseView>)
    requires
        forall|i: int| 0 <= i < rs.len() ==> rs[i] == ResponseView::Nothing,
    ensures
        apply_all(m, rs) == m,
    decreases rs.len(),
{
    if rs.len() == 0 {
    } else {
        lemma_nothing_is_noop(m, rs.subrange(1, rs.len() as int));
    }
}

/// Error isolation: an `Error` envelope only appends to the diagnostics
/// log. The projects, the selection and the earlier diagnostics are exactly
/// what they were, so neither unrelated pending units (which the pass keeps
/// untouched) nor already-applied state are affected.
pub proof fn lemma_error_isolated(m: Model, e: Seq<char>)
    ensures
        apply_spec(m, ResponseView::Error(e)).projects == m.projects,
        apply_spec(m, ResponseView::Error(e)).selected == m.selected,
        apply_spec(m, ResponseView::Error(e)).errors == m.errors.push(e),
        apply_spec(m, ResponseView::Error(e)).log_stale_drops == m.log_stale_drops,
{
}

/// Stale-target safety: an image that arrives when no project is selected
/// -- in particular after its target project was removed, which clears the
/// selection -- is dropped: no project changes, and with stale-drop logging
/// off the state is exactly what it was.
pub proof fn lemma_stale_image_dropped(m: Model, img: ImageView)
    requires
        m.selected is None,
    ensures
        apply_spec(m, ResponseView::Image(img)).projects == m.projects,
        apply_spec(m, ResponseView::Image(img)).selected == m.selected,
        !m.log_stale_drops ==> apply_spec(m, ResponseView::Image(img)) == m,
        m.log_stale_drops ==> apply_spec(m, ResponseView::Image(img)).errors == m.errors.push(
            stale_note(img),
        ),
{
}

/// The response for a finished file pick: the chosen image, or nothing when
/// the user cancelled.
pub fn dialog_response(picked: Option<Image>) -> (r: Response)
    ensures
        r@ == (match picked {
            Some(img) => ResponseView::Image(img@),
            None => ResponseView::Nothing,
        }),
{
    match picked {
        Some(img) => Response::Image(img),
        None => Response::Nothing,
    }
}

/// The response for a finished removal: the removed record's identity on
/// success, else the failure message.
pub fn remove_result_response(id: u64, error: Option<String>) -> (r: Response)
    ensures
        r@ == (match error {
            Some(e) => ResponseView::Error(e@),
            None => ResponseView::RemoveProject(id),
        }),
{
    match error {
        Some(e) => Response::Error(e),
        None => Response::RemoveProject(id),
    }
}

/// The response for a finished update: the failure message, else nothing,
/// since a successful update changes no UI-visible state.
pub fn update_result_response(error: Option<String>) -> (r: Response)
    ensures
        r@ == (match error {
            Some(e) => ResponseView::Error(e@),
            None => ResponseView::Nothing,
        }),
{
    match error {
        Some(e) => Response::Error(e),
        None => Response::Nothing,
    }
}

proof fn lemma_find_project_at(ps: Seq<ProjectView>, id: u64, j: int)
    requires
        0 <= j < ps.len(),
        ps[j].id == id,
        forall|k: int| 0 <= k < j ==> ps[k].id != id,
    ensures
        find_project(ps, id) == Some(j),
    decreases j,
{
    if j == 0 {
    } else {
        let tail = ps.subrange(1, ps.len() as int);
        lemma_find_project_at(tail, id, j - 1);
    }
}

proof fn lemma_find_project_none(ps: Seq<ProjectView>, id: u64)
    requires
        forall|k: int| 0 <= k < ps.len() ==> ps[k].id != id,
    ensures
        find_project(ps, id) is None,
    decreases ps.len(),
{
    if ps.len() == 0 {
    } else {
        lemma_find_project_none(ps.subrange(1, ps.len() as int), id);
    }
}

/// The position of the first project whose identity equals `id`.
fn position_of(projects: &Vec<Project>, id: u64) -> (r: Option<usize>)
    ensures
        (match r {
            Some(j) => j < projects@.len() && find_project(
                projects@.map_values(|p: Project| p@),
                id,
            ) == Some(j as int),
            None => find_project(projects@.map_values(|p: Project| p@), id) is None,
        }),
{
    let ghost ps = projects@.map_values(|p: Project| p@);
    let n = projects.len();
    let mut j: usize = 0;
    while j < n
        invariant
            n == projects@.len(),
            ps == projects@.map_values(|p: Project| p@),
            j <= n,
            forall|k: int| 0 <= k < j ==> ps[k].id != id,
        decreases n - j,
    {
        if projects[j].id == id {
            proof {
                assert(ps[j as int].id == id);
                lemma_find_project_at(ps, id, j as int);
            }
            return Some(j);
        }
        j = j + 1;
    }
    proof {
        lemma_find_project_none(ps, id);
    }
    None
}

impl Portfolio {
    pub open spec fn model(self) -> Model {
        Model {
            projects: self.projects@.map_values(|p: Project| p@),
            selected: match self.project_id {
                Some(i) => Some(i as int),
                None => None,
            },
            errors: self.errors@.map_values(|e: String| e@),
            log_stale_drops: self.log_stale_drops,
        }
    }

    pub open spec fn wf(self) -> bool {
        model_wf(self.model())
    }

    /// A fresh state over an initial project list: nothing selected, no
    /// live tasks, no diagnostics, stale drops silent.
    pub fn new(projects: Vec<Project>) -> (r: Portfolio)
        ensures
            r.projects@ == projects@,
            r.project_id is None,
            r.tasks@ == Seq::<TaskHandle>::empty(),
            r.errors@ == Seq::<String>::empty(),
            r.log_stale_drops == false,
            r.wf(),
    {
        Portfolio {
            projects,
            project_id: None,
            tasks: Vec::new(),
            errors: Vec::new(),
            log_stale_drops: false,
        }
    }

    /// Registers a dispatched unit: exactly one handle is appended to the
    /// registry and nothing else changes.
    pub fn register_task(&mut self, t: TaskHandle)
        ensures
            final(self).tasks@ == old(self).tasks@.push(t),
            final(self).model() == old(self).model(),
    {
        self.tasks.push(t);
    }

    /// Applies one envelope to the state, following the transition table.
    /// The task registry is untouched: polling and removal of handles is
    /// the reconciliation pass's business.
    pub fn apply_response(&mut self, r: Response)
        requires
            old(self).wf(),
        ensures
            final(self).wf(),
            final(self).model() == apply_spec(old(self).model(), r@),
            final(self).tasks@ == old(self).tasks@,
    {
        let ghost pre = *self;
        match r {
            Response::Nothing => {},
            Response::Image(img) => {
                match self.project_id {
                    Some(index) => {
                        let mut p = self.projects.remove(index);
                        let ghost p0 = p;
                        p.images.push(img);
                        proof {
                            assert(p@.images =~= p0@.images.push(img@));
                        }
                        self.projects.insert(index, p);
                        proof {
                            assert(self.projects@ =~= pre.projects@.update(index as int, p));
                            assert(self.model().projects =~= apply_spec(
                                pre.model(),
                                r@,
                            ).projects);
                            assert(self.model().errors =~= pre.model().errors);
                        }
                    },
                    None => {
                        if self.log_stale_drops {
                            let note = String::from_str(
                                "image dropped, no project selected: ",
                            ).concat(img.name.as_str());
                            self.errors.push(note);
                            proof {
                                assert(self.model().errors =~= pre.model().errors.push(
                                    stale_note(img@),
                                ));
                                assert(self.model().projects =~= pre.model().projects);
                            }
                        }
                    },
                }
            },
            Response::Project(p) => {
                self.projects.push(p);
                proof {
                    assert(self.model().projects =~= pre.model().projects.push(p@));
                    assert(self.model().errors =~= pre.model().errors);
                }
            },
            Response::RemoveProject(id) => {
                match position_of(&self.projects, id) {
                    Some(pos) => {
                        self.projects.remove(pos);
                        match self.project_id {
                            Some(sel) => {
                                if sel == pos {
                                    self.project_id = None;
                                } else if sel > pos {
                                    self.project_id = Some(sel - 1);
                                }
                            },
                            None => {},
                        }
                        proof {
                            assert(self.model().projects =~= pre.model().projects.remove(
                                pos as int,
                            ));
                            assert(self.model().errors =~= pre.model().errors);
                        }
                    },
                    None => {},
                }
            },
            Response::Error(e) => {
                self.errors.push(e);
                proof {
                    assert(self.model().errors =~= pre.model().errors.push(e@));
                    assert(self.model().projects =~= pre.model().projects);
                }
            },
        }
        proof {
            assert(self.model() == apply_spec(pre.model(), r@));
        }
    }

    /// One reconciliation pass, run once per frame before anything else
    /// reads the state. Every handle in the registry is polled exactly once,
    /// without blocking: an arrived envelope is applied to the state and its
    /// handle dropped; a unit that terminated without sending is dropped
    /// with no effect on the state; a still-running unit's handle stays,
    /// and the survivors keep their order.
    pub fn check_tasks(&mut self)
        requires
            old(self).wf(),
        ensures
            final(self).wf(),
            exists|o: Seq<PollOutcome>| reconciled(*old(self), *final(self), o),
    {
        let ghost pre = *self;
        let mut kept: Vec<TaskHandle> = Vec::new();
        let ghost mut outs: Seq<PollOutcome> = Seq::empty();
        proof {
            assert(self.tasks@ =~= pre.tasks@.subrange(0, pre.tasks@.len() as int));
            assert(kept@ =~= retained(pre.tasks@.subrange(0, 0), outs));
            assert(responses_of(outs) =~= Seq::<ResponseView>::empty());
        }
        while self.tasks.len() > 0
            invariant
                self.wf(),
                outs.len() + self.tasks@.len() == pre.tasks@.len(),
                self.tasks@ == pre.tasks@.subrange(outs.len() as int, pre.tasks@.len() as int),
                kept@ == retained(pre.tasks@.subrange(0, outs.len() as int), outs),
                self.model() == apply_all(pre.model(), responses_of(outs)),
            decreases self.tasks@.len(),
        {
            let ghost k = outs.len() as int;
            let t = self.tasks.remove(0);
            let ghost done = pre.tasks@.subrange(0, k);
            proof {
                assert(t == pre.tasks@[k]);
                assert(self.tasks@ =~= pre.tasks@.subrange(k + 1, pre.tasks@.len() as int));
                assert(pre.tasks@.subrange(0, k + 1) =~= done.push(t));
            }
            let outcome = poll_handle(&t);
            let ghost observed = outcome;
            proof {
                lemma_retained_snoc(done, outs, t, observed);
                lemma_responses_snoc(outs, observed);
            }
            match outcome {
                PollOutcome::Ready(resp) => {
                    proof {
                        lemma_apply_all_snoc(pre.model(), responses_of(outs), resp@);
                        assert(responses_of(outs.push(observed)) =~= responses_of(outs).push(
                            resp@,
                        ));
                    }
                    self.apply_response(resp);
                    proof {
                        assert(kept@ =~= retained(done.push(t), outs.push(observed)));
                        outs = outs.push(observed);
                    }
                },
                PollOutcome::Pending => {
                    kept.push(t);
                    proof {
                        assert(kept@ =~= retained(done.push(t), outs.push(observed)));
                        assert(responses_of(outs.push(observed)) =~= responses_of(outs));
                        outs = outs.push(observed);
                    }
                },
                PollOutcome::Closed => {
                    proof {
                        assert(kept@ =~= retained(done.push(t), outs.push(observed)));
                        assert(responses_of(outs.push(observed)) =~= responses_of(outs));
                        outs = outs.push(observed);
                    }
                },
            }
        }
        self.tasks = kept;
        proof {
            assert(pre.tasks@.subrange(0, outs.len() as int) =~= pre.tasks@);
            assert(reconciled(pre, *self, outs));
        }
    }

    /// Makes the project at `index` the selected one.
    pub fn select_project(&mut self, index: usize)
        requires
            index < old(self).projects@.len(),
        ensures
            final(self).project_id == Some(index),
            final(self).projects@ == old(self).projects@,
            final(self).tasks@ == old(self).tasks@,
            final(self).errors@ == old(self).errors@,
            final(self).log_stale_drops == old(self).log_stale_drops,
            final(self).wf(),
    {
        self.project_id = Some(index);
    }
}

} // verus!
