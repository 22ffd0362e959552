use std::sync::mpsc::channel;

use portfolio::app::{Portfolio, Response, TaskHandle};
use portfolio::project::Project;

fn fresh(projects: Vec<Project>) -> Portfolio {
    Portfolio::new(projects)
}

fn named_project(id: u64, name: &str) -> Project {
    let mut p = Project::new(id);
    p.name = name.to_string();
    p
}

#[test]
fn end_to_end_scenario() {
    // Dispatch 3 units; unit 2 completes first with Project(p2), unit 1
    // completes second with Error("x"), unit 3 never completes.
    let mut state = fresh(vec![]);

    let (s1, r1) = channel();
    let (s2, r2) = channel();
    let (s3, r3) = channel();
    state.register_task(TaskHandle { receiver: r1, unit: None });
    state.register_task(TaskHandle { receiver: r2, unit: None });
    state.register_task(TaskHandle { receiver: r3, unit: None });

    let p2 = named_project(2, "p2");
    s2.send(Response::Project(p2)).unwrap();

    state.check_tasks();
    assert_eq!(state.projects.len(), 1);
    assert_eq!(state.projects[0].name, "p2");
    assert_eq!(state.errors.len(), 0);
    assert_eq!(state.tasks.len(), 2);

    s1.send(Response::Error("x".to_string())).unwrap();

    state.check_tasks();
    assert_eq!(state.projects.len(), 1);
    assert_eq!(state.projects[0].id, 2);
    assert_eq!(state.projects[0].name, "p2");
    assert_eq!(state.errors, vec!["x".to_string()]);
    assert_eq!(state.tasks.len(), 1);

    // Keep unit 3's sender alive to the end, so its channel never reports a
    // disconnect.
    drop(s3);
}

#[test]
fn at_most_once_across_frames() {
    // A unit polled over many frames before its envelope arrives is applied
    // exactly once, on the frame it arrives.
    let mut state = fresh(vec![]);
    let (sender, receiver) = channel();
    state.register_task(TaskHandle { receiver, unit: None });

    for _ in 0..3 {
        state.check_tasks();
        assert_eq!(state.tasks.len(), 1);
        assert_eq!(state.projects.len(), 0);
    }

    sender.send(Response::Project(named_project(9, "late"))).unwrap();
    state.check_tasks();
    assert_eq!(state.tasks.len(), 0);
    assert_eq!(state.projects.len(), 1);

    state.check_tasks();
    assert_eq!(state.projects.len(), 1);
}

#[test]
fn no_double_removal_no_skip() {
    // Four units; positions 0 and 2 complete, 1 and 3 stay pending. One
    // pass removes exactly the completed two and keeps the others polling.
    let mut state = fresh(vec![]);
    let (s0, r0) = channel();
    let (s1, r1) = channel();
    let (s2, r2) = channel();
    let (s3, r3) = channel();
    state.register_task(TaskHandle { receiver: r0, unit: None });
    state.register_task(TaskHandle { receiver: r1, unit: None });
    state.register_task(TaskHandle { receiver: r2, unit: None });
    state.register_task(TaskHandle { receiver: r3, unit: None });

    s0.send(Response::Error("a".to_string())).unwrap();
    s2.send(Response::Error("c".to_string())).unwrap();

    state.check_tasks();
    assert_eq!(state.errors, vec!["a".to_string(), "c".to_string()]);
    assert_eq!(state.tasks.len(), 2);

    // The survivors are still the handles of units 1 and 3, in order.
    s1.send(Response::Error("b".to_string())).unwrap();
    s3.send(Response::Error("d".to_string())).unwrap();
    state.check_tasks();
    assert_eq!(
        state.errors,
        vec!["a".to_string(), "c".to_string(), "b".to_string(), "d".to_string()]
    );
    assert_eq!(state.tasks.len(), 0);
}

#[test]
fn stale_target_image_is_dropped() {
    // An image-producing unit targets the selected project; the project is
    // removed before the image arrives. The image is dropped silently.
    let mut state = fresh(vec![named_project(7, "doomed")]);
    state.select_project(0);

    let (s_img, r_img) = channel();
    state.register_task(TaskHandle { receiver: r_img, unit: None });
    let (s_rm, r_rm) = channel();
    state.register_task(TaskHandle { receiver: r_rm, unit: None });

    s_rm.send(Response::RemoveProject(7)).unwrap();
    state.check_tasks();
    assert_eq!(state.projects.len(), 0);
    assert_eq!(state.project_id, None);
    assert_eq!(state.tasks.len(), 1);

    let mut img = portfolio::image::Image::new();
    img.name = "late.png".to_string();
    s_img.send(Response::Image(img)).unwrap();
    state.check_tasks();
    assert_eq!(state.projects.len(), 0);
    assert_eq!(state.errors.len(), 0);
    assert_eq!(state.tasks.len(), 0);
}

#[test]
fn stale_target_drop_can_be_logged() {
    let mut state = fresh(vec![]);
    state.log_stale_drops = true;

    let (sender, receiver) = channel();
    state.register_task(TaskHandle { receiver, unit: None });
    let mut img = portfolio::image::Image::new();
    img.name = "late.png".to_string();
    sender.send(Response::Image(img)).unwrap();

    state.check_tasks();
    assert_eq!(state.projects.len(), 0);
    assert_eq!(
        state.errors,
        vec!["image dropped, no project selected: late.png".to_string()]
    );
}

#[test]
fn error_is_isolated() {
    // One unit's error affects neither unrelated pending units nor the
    // state already built up.
    let mut state = fresh(vec![named_project(1, "keep")]);
    state.select_project(0);

    let (s_err, r_err) = channel();
    let (s_ok, r_ok) = channel();
    state.register_task(TaskHandle { receiver: r_err, unit: None });
    state.register_task(TaskHandle { receiver: r_ok, unit: None });

    s_err.send(Response::Error("boom".to_string())).unwrap();
    state.check_tasks();
    assert_eq!(state.errors, vec!["boom".to_string()]);
    assert_eq!(state.projects.len(), 1);
    assert_eq!(state.projects[0].name, "keep");
    assert_eq!(state.project_id, Some(0));
    assert_eq!(state.tasks.len(), 1);

    s_ok.send(Response::Project(named_project(2, "second"))).unwrap();
    state.check_tasks();
    assert_eq!(state.projects.len(), 2);
    assert_eq!(state.projects[1].name, "second");
}

#[test]
fn nothing_is_idempotent() {
    // Applying `Nothing` N times leaves the state byte-for-byte unchanged.
    let mut state = fresh(vec![named_project(4, "stays")]);
    state.select_project(0);
    state.errors.push("old".to_string());

    let mut senders = Vec::new();
    for _ in 0..5 {
        let (sender, receiver) = channel();
        state.register_task(TaskHandle { receiver, unit: None });
        sender.send(Response::Nothing).unwrap();
        senders.push(sender);
    }

    state.check_tasks();
    assert_eq!(state.projects.len(), 1);
    assert_eq!(state.projects[0].id, 4);
    assert_eq!(state.projects[0].name, "stays");
    assert_eq!(state.projects[0].description, "");
    assert_eq!(state.projects[0].images.len(), 0);
    assert_eq!(state.projects[0].links.len(), 0);
    assert_eq!(state.project_id, Some(0));
    assert_eq!(state.errors, vec!["old".to_string()]);
    assert_eq!(state.log_stale_drops, false);
    assert_eq!(state.tasks.len(), 0);
}

#[test]
fn disconnected_unit_is_dropped_quietly() {
    // A unit that terminates without sending: its handle goes, the state
    // stays, nothing panics.
    let mut state = fresh(vec![]);
    let (sender, receiver) = channel::<Response>();
    state.register_task(TaskHandle { receiver, unit: None });
    drop(sender);

    state.check_tasks();
    assert_eq!(state.tasks.len(), 0);
    assert_eq!(state.projects.len(), 0);
    assert_eq!(state.errors.len(), 0);
}

#[test]
fn image_lands_in_selected_project() {
    let mut state = fresh(vec![named_project(1, "a"), named_project(2, "b")]);
    state.select_project(1);

    let (sender, receiver) = channel();
    state.register_task(TaskHandle { receiver, unit: None });
    let mut img = portfolio::image::Image::new();
    img.name = "pic.png".to_string();
    sender.send(Response::Image(img)).unwrap();

    state.check_tasks();
    assert_eq!(state.projects[0].images.len(), 0);
    assert_eq!(state.projects[1].images.len(), 1);
    assert_eq!(state.projects[1].images[0].name, "pic.png");
}

#[test]
fn remove_clears_selection_of_removed() {
    let mut state = fresh(vec![named_project(1, "a"), named_project(2, "b")]);
    state.select_project(1);
    state.apply_response(Response::RemoveProject(2));
    assert_eq!(state.projects.len(), 1);
    assert_eq!(state.projects[0].id, 1);
    assert_eq!(state.project_id, None);
}

#[test]
fn remove_shifts_selection_past_it() {
    let mut state = fresh(vec![named_project(1, "a"), named_project(2, "b")]);
    state.select_project(1);
    state.apply_response(Response::RemoveProject(1));
    assert_eq!(state.projects.len(), 1);
    assert_eq!(state.projects[0].id, 2);
    assert_eq!(state.project_id, Some(0));
}

#[test]
fn remove_absent_is_noop() {
    let mut state = fresh(vec![named_project(1, "a")]);
    state.select_project(0);
    state.apply_response(Response::RemoveProject(99));
    assert_eq!(state.projects.len(), 1);
    assert_eq!(state.project_id, Some(0));
    assert_eq!(state.errors.len(), 0);
}

#[test]
fn remove_takes_first_match() {
    let mut state = fresh(vec![
        named_project(5, "first"),
        named_project(5, "second"),
    ]);
    state.apply_response(Response::RemoveProject(5));
    assert_eq!(state.projects.len(), 1);
    assert_eq!(state.projects[0].name, "second");
}

#[test]
fn register_appends_exactly_one() {
    let mut state = fresh(vec![]);
    let (_s, receiver) = channel();
    state.register_task(TaskHandle { receiver, unit: None });
    assert_eq!(state.tasks.len(), 1);
}
