use queuecast::clock::Timestamp;
use queuecast::ident::generate_hash;
use queuecast::model::{Database, Episode, Error, Program, ProgramStatus};
use queuecast::registry::{add_program, set_symlink_dir, stop_program};
use queuecast::rollover::{
    confirm_published, make_link_name, update_program_symlink, update_symlinks, LinkRequest,
    RolloverAction, SweepOutcome,
};
use queuecast::scan::FileEntry;

const DAY: i64 = 86_400;
const T0: i64 = 1_700_000_000;

fn at(secs: i64) -> Timestamp {
    Timestamp::new(secs, 0).expect("valid instant")
}

fn program(name: &str, episodes: usize, current: usize, status: ProgramStatus) -> Program {
    Program {
        name: name.to_string(),
        hash: generate_hash(name),
        directory: format!("/media/{}", name),
        episodes: (1..=episodes)
            .map(|n| Episode { path: format!("/media/{}/e{}.mkv", name, n), episode_number: n })
            .collect(),
        current_episode: current,
        start_date: None,
        last_update: None,
        status,
    }
}

fn catalog(programs: Vec<Program>, symlink_dir: Option<&str>) -> Database {
    Database { programs, symlink_dir: symlink_dir.map(|d| d.to_string()) }
}

fn publish(directory: &str, link_name: &str, target: &str) -> RolloverAction {
    RolloverAction::Publish(LinkRequest {
        directory: directory.to_string(),
        link_name: link_name.to_string(),
        target: target.to_string(),
    })
}

#[test]
fn link_name_has_two_digits_at_least() {
    assert_eq!(make_link_name("Show", 3, "/m/c.mkv"), "Show_ep03.mkv");
    assert_eq!(make_link_name("Show", 9, "/m/c.mkv"), "Show_ep09.mkv");
    assert_eq!(make_link_name("Show", 10, "/m/c.mkv"), "Show_ep10.mkv");
    assert_eq!(make_link_name("Show", 123, "/m/c.mkv"), "Show_ep123.mkv");
    assert_eq!(make_link_name("Show", 0, "/m/c.mkv"), "Show_ep00.mkv");
}

#[test]
fn link_name_has_underscores_for_spaces() {
    assert_eq!(make_link_name("My Great Show", 1, "/m/a b.mp4"), "My_Great_Show_ep01.mp4");
    assert_eq!(make_link_name(" x ", 1, "/m/a.avi"), "_x__ep01.avi");
}

#[test]
fn link_name_takes_the_extension_of_the_file() {
    assert_eq!(make_link_name("S", 1, "/m.d/a.tar.mov"), "S_ep01.mov");
    assert_eq!(make_link_name("S", 1, "/m.d/a"), "S_ep01.");
    assert_eq!(make_link_name("S", 1, "/m/.mkv"), "S_ep01.");
    assert_eq!(make_link_name("S", 1, ""), "S_ep01.");
}

#[test]
fn link_name_is_as_the_format_macro_writes_it() {
    for (name, n, ext) in [("A B", 1usize, "mkv"), ("Z", 42, "mp4"), ("Q  q", 1000, "avi")] {
        let path = format!("/dir/file.{}", ext);
        let expected = format!("{}_ep{:02}.{}", name.replace(" ", "_"), n, ext);
        assert_eq!(make_link_name(name, n, &path), expected);
    }
}

#[test]
fn end_to_end_scenario() {
    let mut db = Database::new();
    let listing = vec![
        FileEntry { path: "/media/Name/a.mkv".to_string(), is_file: true },
        FileEntry { path: "/media/Name/b.mkv".to_string(), is_file: true },
        FileEntry { path: "/media/Name/c.mkv".to_string(), is_file: true },
    ];
    let id = add_program(&mut db, "/media/Name", Some(&listing)).unwrap();
    assert_eq!(db.programs[0].episodes.len(), 3);
    assert_eq!(db.programs[0].status, ProgramStatus::Ready);
    assert_eq!(db.programs[0].current_episode, 0);

    set_symlink_dir(&mut db, "/links");

    let now = at(T0);
    let first = update_program_symlink(&mut db, &id, true, now);
    assert_eq!(first, Ok(publish("/links", "Name_ep01.mkv", "/media/Name/a.mkv")));
    assert_eq!(db.programs[0].status, ProgramStatus::Running);
    assert_eq!(db.programs[0].start_date, Some(now));
    assert_eq!(db.programs[0].current_episode, 0);
    assert_eq!(confirm_published(&mut db, &id, now), Ok(()));
    assert_eq!(db.programs[0].current_episode, 1);
    assert_eq!(db.programs[0].last_update, Some(now));

    let second = update_program_symlink(&mut db, &id, true, at(T0 + 1));
    assert_eq!(second, Ok(publish("/links", "Name_ep02.mkv", "/media/Name/b.mkv")));
    assert_eq!(confirm_published(&mut db, &id, at(T0 + 1)), Ok(()));
    assert_eq!(db.programs[0].current_episode, 2);

    let third = update_program_symlink(&mut db, &id, true, at(T0 + 2));
    assert_eq!(third, Ok(publish("/links", "Name_ep03.mkv", "/media/Name/c.mkv")));
    assert_eq!(confirm_published(&mut db, &id, at(T0 + 2)), Ok(()));
    assert_eq!(db.programs[0].current_episode, 3);
    assert_eq!(db.programs[0].status, ProgramStatus::Running);
    assert_eq!(db.programs[0].last_update, Some(at(T0 + 2)));

    let fourth = update_program_symlink(&mut db, &id, true, at(T0 + 3));
    assert_eq!(fourth, Ok(RolloverAction::Nothing));
    assert_eq!(db.programs[0].status, ProgramStatus::Finished);
    assert_eq!(db.programs[0].current_episode, 3);
    assert_eq!(db.programs[0].last_update, Some(at(T0 + 2)));
    assert_eq!(db.programs[0].start_date, Some(now));
    assert!(db.programs[0].is_valid());
}

#[test]
fn ready_program_starts_running() {
    let mut db = catalog(vec![program("A", 2, 0, ProgramStatus::Ready)], Some("/links"));
    let id = generate_hash("A");
    let r = update_program_symlink(&mut db, &id, false, at(T0));
    assert_eq!(r, Ok(publish("/links", "A_ep01.mkv", "/media/A/e1.mkv")));
    let mut expected = program("A", 2, 0, ProgramStatus::Running);
    expected.start_date = Some(at(T0));
    assert_eq!(db.programs[0], expected);
}

#[test]
fn running_program_keeps_its_start_date() {
    let mut p = program("A", 2, 0, ProgramStatus::Running);
    p.start_date = Some(at(T0 - 5));
    let mut db = catalog(vec![p.clone()], Some("/links"));
    let r = update_program_symlink(&mut db, &generate_hash("A"), false, at(T0));
    assert_eq!(r, Ok(publish("/links", "A_ep01.mkv", "/media/A/e1.mkv")));
    assert_eq!(db.programs[0], p);
}

#[test]
fn unforced_rollover_after_six_days_changes_nothing() {
    let mut p = program("A", 3, 1, ProgramStatus::Running);
    p.last_update = Some(at(T0));
    let mut db = catalog(vec![p], Some("/links"));
    let before = db.clone();
    let r = update_program_symlink(&mut db, &generate_hash("A"), false, at(T0 + 6 * DAY));
    assert_eq!(r, Ok(RolloverAction::Nothing));
    assert_eq!(db, before);
}

#[test]
fn unforced_rollover_just_before_seven_days_changes_nothing() {
    let mut p = program("A", 3, 1, ProgramStatus::Running);
    p.last_update = Some(at(T0));
    let mut db = catalog(vec![p], Some("/links"));
    let before = db.clone();
    let r = update_program_symlink(&mut db, &generate_hash("A"), false, at(T0 + 7 * DAY - 1));
    assert_eq!(r, Ok(RolloverAction::Nothing));
    assert_eq!(db, before);
}

#[test]
fn unforced_rollover_after_seven_days_goes_ahead() {
    let mut p = program("A", 3, 1, ProgramStatus::Running);
    p.last_update = Some(at(T0));
    let mut db = catalog(vec![p], Some("/links"));
    let r = update_program_symlink(&mut db, &generate_hash("A"), false, at(T0 + 7 * DAY));
    assert_eq!(r, Ok(publish("/links", "A_ep02.mkv", "/media/A/e2.mkv")));
    let later = update_program_symlink(&mut db, &generate_hash("A"), false, at(T0 + 70 * DAY));
    assert_eq!(later, Ok(publish("/links", "A_ep02.mkv", "/media/A/e2.mkv")));
}

#[test]
fn forced_rollover_does_not_wait() {
    let mut p = program("A", 3, 1, ProgramStatus::Running);
    p.last_update = Some(at(T0));
    let mut db = catalog(vec![p], Some("/links"));
    let r = update_program_symlink(&mut db, &generate_hash("A"), true, at(T0));
    assert_eq!(r, Ok(publish("/links", "A_ep02.mkv", "/media/A/e2.mkv")));
}

#[test]
fn rollover_at_the_end_finishes_once_and_then_rests() {
    let mut p = program("A", 3, 3, ProgramStatus::Running);
    p.last_update = Some(at(T0));
    let mut db = catalog(vec![p.clone()], Some("/links"));
    let id = generate_hash("A");
    assert_eq!(update_program_symlink(&mut db, &id, true, at(T0 + 1)), Ok(RolloverAction::Nothing));
    p.status = ProgramStatus::Finished;
    assert_eq!(db.programs[0], p);
    for k in 2..6 {
        let r = update_program_symlink(&mut db, &id, true, at(T0 + k));
        assert_eq!(r, Ok(RolloverAction::Nothing));
        assert_eq!(db.programs[0], p);
    }
    assert_eq!(confirm_published(&mut db, &id, at(T0 + 9)), Err(Error::InvalidInput));
    assert_eq!(db.programs[0], p);
}

#[test]
fn finishing_needs_no_link_directory() {
    let mut db = catalog(vec![program("A", 2, 2, ProgramStatus::Running)], None);
    let r = update_program_symlink(&mut db, &generate_hash("A"), true, at(T0));
    assert_eq!(r, Ok(RolloverAction::Nothing));
    assert_eq!(db.programs[0].status, ProgramStatus::Finished);
}

#[test]
fn unforced_rollover_at_the_end_waits_for_the_cadence() {
    let mut p = program("A", 2, 2, ProgramStatus::Running);
    p.last_update = Some(at(T0));
    let mut db = catalog(vec![p], Some("/links"));
    let id = generate_hash("A");
    assert_eq!(update_program_symlink(&mut db, &id, false, at(T0 + DAY)), Ok(RolloverAction::Nothing));
    assert_eq!(db.programs[0].status, ProgramStatus::Running);
    assert_eq!(update_program_symlink(&mut db, &id, false, at(T0 + 8 * DAY)), Ok(RolloverAction::Nothing));
    assert_eq!(db.programs[0].status, ProgramStatus::Finished);
}

#[test]
fn stopped_and_finished_programs_are_left_alone() {
    for status in [ProgramStatus::Stopped, ProgramStatus::Finished] {
        let mut db = catalog(vec![program("A", 3, 3, status)], Some("/links"));
        let before = db.clone();
        for force in [false, true] {
            let r = update_program_symlink(&mut db, &generate_hash("A"), force, at(T0));
            assert_eq!(r, Ok(RolloverAction::Nothing));
            assert_eq!(db, before);
        }
    }
}

#[test]
fn stopped_program_with_episodes_left_is_left_alone() {
    let mut db = catalog(vec![program("A", 3, 1, ProgramStatus::Running)], Some("/links"));
    let id = generate_hash("A");
    assert_eq!(stop_program(&mut db, &id), Ok(()));
    let before = db.clone();
    assert_eq!(update_program_symlink(&mut db, &id, true, at(T0)), Ok(RolloverAction::Nothing));
    assert_eq!(update_symlinks(&mut db, None, at(T0 + 30 * DAY)).unwrap()[0].result, Ok(RolloverAction::Nothing));
    assert_eq!(db, before);
    assert_eq!(confirm_published(&mut db, &id, at(T0)), Err(Error::InvalidInput));
    assert_eq!(db, before);
}

#[test]
fn unknown_identifier_is_not_found() {
    let mut db = catalog(vec![program("A", 3, 1, ProgramStatus::Running)], Some("/links"));
    let before = db.clone();
    assert_eq!(update_program_symlink(&mut db, "12345678", true, at(T0)), Err(Error::NotFound));
    assert_eq!(confirm_published(&mut db, "12345678", at(T0)), Err(Error::NotFound));
    assert_eq!(update_symlinks(&mut db, Some("12345678"), at(T0)), Err(Error::NotFound));
    assert_eq!(db, before);
}

#[test]
fn publishing_needs_the_link_directory() {
    let mut db = catalog(vec![program("A", 3, 0, ProgramStatus::Ready)], None);
    let id = generate_hash("A");
    let r = update_program_symlink(&mut db, &id, true, at(T0));
    assert_eq!(r, Err(Error::ConfigurationMissing));
    assert_eq!(db.programs[0].current_episode, 0);
    assert_eq!(db.programs[0].last_update, None);
    assert_eq!(db.programs[0].status, ProgramStatus::Running);
    assert_eq!(db.programs[0].start_date, Some(at(T0)));
}

#[test]
fn missing_link_directory_does_not_matter_while_the_gate_is_closed() {
    let mut p = program("A", 3, 1, ProgramStatus::Running);
    p.last_update = Some(at(T0));
    let mut db = catalog(vec![p], None);
    let r = update_program_symlink(&mut db, &generate_hash("A"), false, at(T0 + DAY));
    assert_eq!(r, Ok(RolloverAction::Nothing));
}

#[test]
fn unconfirmed_publish_leaves_the_cursor() {
    let mut db = catalog(vec![program("A", 3, 1, ProgramStatus::Running)], Some("/links"));
    let id = generate_hash("A");
    let first = update_program_symlink(&mut db, &id, true, at(T0));
    let again = update_program_symlink(&mut db, &id, true, at(T0 + 1));
    assert_eq!(first, Ok(publish("/links", "A_ep02.mkv", "/media/A/e2.mkv")));
    assert_eq!(again, first);
    assert_eq!(db.programs[0].current_episode, 1);
    assert_eq!(db.programs[0].last_update, None);
}

#[test]
fn confirm_advances_and_stamps() {
    let mut p = program("A", 3, 2, ProgramStatus::Running);
    p.start_date = Some(at(T0 - 100));
    let mut db = catalog(vec![p.clone()], Some("/links"));
    assert_eq!(confirm_published(&mut db, &generate_hash("A"), at(T0)), Ok(()));
    p.current_episode = 3;
    p.last_update = Some(at(T0));
    assert_eq!(db.programs[0], p);
    assert_eq!(confirm_published(&mut db, &generate_hash("A"), at(T0)), Err(Error::InvalidInput));
    assert_eq!(db.programs[0], p);
}

#[test]
fn confirm_refuses_a_program_that_does_not_run() {
    for status in [ProgramStatus::Ready, ProgramStatus::Stopped] {
        let mut db = catalog(vec![program("A", 3, 1, status)], Some("/links"));
        let before = db.clone();
        assert_eq!(confirm_published(&mut db, &generate_hash("A"), at(T0)), Err(Error::InvalidInput));
        assert_eq!(db, before);
    }
}

#[test]
fn link_uses_the_number_of_the_episode() {
    let mut p = program("A", 2, 0, ProgramStatus::Running);
    p.episodes[0].episode_number = 7;
    let mut db = catalog(vec![p], Some("/links"));
    let r = update_program_symlink(&mut db, &generate_hash("A"), true, at(T0));
    assert_eq!(r, Ok(publish("/links", "A_ep07.mkv", "/media/A/e1.mkv")));
}

#[test]
fn targeted_update_is_forced() {
    let mut p = program("A", 3, 1, ProgramStatus::Running);
    p.last_update = Some(at(T0));
    let mut db = catalog(vec![p, program("B", 2, 0, ProgramStatus::Ready)], Some("/links"));
    let id = generate_hash("A");
    let r = update_symlinks(&mut db, Some(&id), at(T0 + 1));
    assert_eq!(
        r,
        Ok(vec![SweepOutcome {
            hash: id,
            result: Ok(publish("/links", "A_ep02.mkv", "/media/A/e2.mkv")),
        }])
    );
    assert_eq!(db.programs[1], program("B", 2, 0, ProgramStatus::Ready));
}

#[test]
fn targeted_update_hands_the_error_on() {
    let mut db = catalog(vec![program("A", 3, 1, ProgramStatus::Running)], None);
    let r = update_symlinks(&mut db, Some(&generate_hash("A")), at(T0));
    assert_eq!(r, Err(Error::ConfigurationMissing));
}

#[test]
fn sweep_gates_each_program_by_its_own_cadence() {
    let mut due = program("Due", 3, 1, ProgramStatus::Running);
    due.last_update = Some(at(T0 - 8 * DAY));
    let mut fresh = program("Fresh", 3, 1, ProgramStatus::Running);
    fresh.last_update = Some(at(T0 - 2 * DAY));
    let mut ended = program("Ended", 2, 2, ProgramStatus::Running);
    ended.last_update = Some(at(T0 - 7 * DAY));
    let mut db = catalog(
        vec![
            due.clone(),
            fresh.clone(),
            program("New", 2, 0, ProgramStatus::Ready),
            program("Halted", 2, 0, ProgramStatus::Stopped),
            ended.clone(),
            program("Done", 1, 1, ProgramStatus::Finished),
        ],
        Some("/links"),
    );
    let outcomes = update_symlinks(&mut db, None, at(T0)).unwrap();
    let expected = vec![
        SweepOutcome {
            hash: generate_hash("Due"),
            result: Ok(publish("/links", "Due_ep02.mkv", "/media/Due/e2.mkv")),
        },
        SweepOutcome { hash: generate_hash("Fresh"), result: Ok(RolloverAction::Nothing) },
        SweepOutcome {
            hash: generate_hash("New"),
            result: Ok(publish("/links", "New_ep01.mkv", "/media/New/e1.mkv")),
        },
        SweepOutcome { hash: generate_hash("Halted"), result: Ok(RolloverAction::Nothing) },
        SweepOutcome { hash: generate_hash("Ended"), result: Ok(RolloverAction::Nothing) },
        SweepOutcome { hash: generate_hash("Done"), result: Ok(RolloverAction::Nothing) },
    ];
    assert_eq!(outcomes, expected);
    assert_eq!(db.programs[0], due);
    assert_eq!(db.programs[1], fresh);
    let mut started = program("New", 2, 0, ProgramStatus::Running);
    started.start_date = Some(at(T0));
    assert_eq!(db.programs[2], started);
    assert_eq!(db.programs[3], program("Halted", 2, 0, ProgramStatus::Stopped));
    ended.status = ProgramStatus::Finished;
    assert_eq!(db.programs[4], ended);
    assert_eq!(db.programs[5], program("Done", 1, 1, ProgramStatus::Finished));
}

#[test]
fn sweep_records_errors_and_goes_on() {
    let mut db = catalog(
        vec![
            program("A", 2, 0, ProgramStatus::Ready),
            program("B", 2, 2, ProgramStatus::Running),
            program("C", 2, 1, ProgramStatus::Running),
        ],
        None,
    );
    let outcomes = update_symlinks(&mut db, None, at(T0)).unwrap();
    assert_eq!(
        outcomes,
        vec![
            SweepOutcome { hash: generate_hash("A"), result: Err(Error::ConfigurationMissing) },
            SweepOutcome { hash: generate_hash("B"), result: Ok(RolloverAction::Nothing) },
            SweepOutcome { hash: generate_hash("C"), result: Err(Error::ConfigurationMissing) },
        ]
    );
    assert_eq!(db.programs[1].status, ProgramStatus::Finished);
    assert_eq!(db.programs[0].current_episode, 0);
    assert_eq!(db.programs[2].current_episode, 1);
}

#[test]
fn sweep_of_an_empty_catalog_does_nothing() {
    let mut db = Database::new();
    assert_eq!(update_symlinks(&mut db, None, at(T0)), Ok(Vec::new()));
    assert_eq!(db, Database::new());
}

#[test]
fn cursor_stays_in_bounds_through_a_whole_run() {
    let mut db = catalog(vec![program("A", 4, 0, ProgramStatus::Ready)], Some("/links"));
    let id = generate_hash("A");
    for week in 0..10 {
        let now = at(T0 + week * 7 * DAY);
        let outcomes = update_symlinks(&mut db, None, now).unwrap();
        if let Ok(RolloverAction::Publish(_)) = outcomes[0].result {
            assert_eq!(confirm_published(&mut db, &id, now), Ok(()));
        }
        let p = &db.programs[0];
        assert!(p.current_episode <= p.episodes.len());
        assert!(p.status != ProgramStatus::Finished || p.current_episode == p.episodes.len());
        assert!(p.is_valid());
    }
    assert_eq!(db.programs[0].status, ProgramStatus::Finished);
    assert_eq!(db.programs[0].current_episode, 4);
    assert_eq!(db.programs[0].last_update, Some(at(T0 + 3 * 7 * DAY)));
}
