use shaktool::category::{Category, Region};
use shaktool::deertier::DeerTierRecord;
use shaktool::error::Error;
use shaktool::record::Record;
use shaktool::runner::Runner;
use shaktool::speedrun::{
    Src, SrcLeaderboard, SrcLeaderboardPlayers, SrcLeaderboardRuns, SrcLink, SrcNames, SrcPlayer,
    SrcRun, SrcStatus, SrcTimes, SrcUser, SrcValue, SrcVideo,
};
use shaktool::store::Store;

fn entry(id: i32, username: &str, category: &str, real_time: Option<&str>, game_time: Option<&str>) -> DeerTierRecord {
    DeerTierRecord {
        id,
        username: String::from(username),
        category: String::from(category),
        real_time: real_time.map(String::from),
        game_time: game_time.map(String::from),
        escape_game_time: None,
        video_url: None,
        comment: None,
        date_submitted: None,
    }
}

fn user(id: &str, name: &str) -> SrcUser {
    SrcUser {
        rel: String::from("user"),
        id: Some(String::from(id)),
        name: None,
        names: Some(SrcNames { international: String::from(name), japanese: None }),
    }
}

fn guest(name: &str) -> SrcUser {
    SrcUser { rel: String::from("guest"), id: None, name: Some(String::from(name)), names: None }
}

fn player(id: &str) -> SrcPlayer {
    SrcPlayer { rel: String::from("user"), id: Some(String::from(id)), name: None, uri: None }
}

fn guest_player(name: &str) -> SrcPlayer {
    SrcPlayer { rel: String::from("guest"), id: None, name: Some(String::from(name)), uri: None }
}

fn src_run(id: &str, players: Vec<SrcPlayer>, realtime: Option<i32>) -> SrcRun {
    SrcRun {
        id: String::from(id),
        weblink: None,
        category: Some(String::from("9d8v96lk")),
        videos: None,
        comment: None,
        status: SrcStatus { status: String::from("verified"), examiner: None, verify_date: None },
        players,
        date: None,
        times: SrcTimes {
            primary: None,
            primary_t: realtime,
            realtime: None,
            realtime_t: realtime,
            realtime_noloads: None,
            ingame: None,
            ingame_t: None,
        },
        system: None,
        splits: None,
        values: Some(SrcValue {
            low_percent: None,
            gt_code: None,
            miniboss: None,
            region: Some(String::from("21gezkxl")),
        }),
    }
}

fn board(users: Vec<SrcUser>, runs: Vec<SrcRun>) -> SrcLeaderboard {
    SrcLeaderboard {
        weblink: String::new(),
        game: String::new(),
        category: String::from("9d8v96lk"),
        runs: runs
            .into_iter()
            .enumerate()
            .map(|(i, run)| SrcLeaderboardRuns { place: i as i32 + 1, run })
            .collect(),
        players: SrcLeaderboardPlayers { data: users },
    }
}

fn src() -> Src {
    Src::new(String::new())
}

#[test]
fn a_deertier_entry_becomes_a_record_to_save() {
    let mut store = Store::new();
    let mut e = entry(17, "Total", "PALLowPercentIceboots", Some("41:22"), Some("0:35"));
    e.comment = Some(String::from("good run"));
    e.video_url = Some(String::from("https://video"));
    let record = Record::from_deertier_record(&e, &mut store).unwrap();
    assert_eq!(
        record,
        Record {
            id: 0,
            dt_id: 17,
            src_id: String::new(),
            runner_id: 1,
            category: Category::LowPercentIceBoots,
            region: Region::PAL,
            realtime: 41 * 60 + 22,
            gametime: 35,
            comment: String::from("good run"),
            video: String::from("https://video"),
            active: 1,
        }
    );
    assert_eq!(store.runners().len(), 1);
    assert_eq!(
        store.runners()[0],
        Runner { id: 1, name: String::from("Total"), dt_id: String::from("Total"), src_id: String::new(), sync: 1 }
    );
    assert!(store.records().is_empty());
}

#[test]
fn a_deertier_entry_without_times_or_texts() {
    let mut store = Store::new();
    let record = Record::from_deertier_record(&entry(3, "a", "nonsense", None, None), &mut store).unwrap();
    assert_eq!(record.realtime, 0);
    assert_eq!(record.gametime, 0);
    assert_eq!(record.comment, "");
    assert_eq!(record.video, "");
    assert_eq!(record.category, Category::Unknown);
    assert_eq!(record.region, Region::NTSC);
}

#[test]
fn the_game_time_of_deertier_is_read_as_the_real_time_is() {
    let mut store = Store::new();
    let e = entry(3, "a", "RBO", Some("1:02:03"), Some("1:30"));
    let record = Record::from_deertier_record(&e, &mut store).unwrap();
    assert_eq!(record.realtime, 3723);
    assert_eq!(record.gametime, 90);
    let e = entry(4, "a", "RBO", Some("1:02:03"), Some("1:00:30"));
    assert_eq!(Record::from_deertier_record(&e, &mut store).unwrap().gametime, 3630);
    let e = entry(5, "a", "RBO", Some("30:00"), Some("30:00"));
    let record = Record::from_deertier_record(&e, &mut store).unwrap();
    assert_eq!(record.gametime, record.realtime);
}

#[test]
fn a_deertier_entry_with_a_game_time_of_seconds() {
    let mut store = Store::new();
    let e = entry(7, "Total", "PALLowPercentSpeedBoots", Some("41:30"), Some("0:28"));
    let record = Record::from_deertier_record(&e, &mut store).unwrap();
    assert_eq!(
        record,
        Record {
            id: 0,
            dt_id: 7,
            src_id: String::new(),
            runner_id: 1,
            category: Category::LowPercentSpeedBoots,
            region: Region::PAL,
            realtime: 2490,
            gametime: 28,
            comment: String::new(),
            video: String::new(),
            active: 1,
        }
    );
}

#[test]
fn a_known_deertier_entry_gives_the_stored_record() {
    let mut store = Store::new();
    let e = entry(17, "Total", "RBO", Some("41:22"), None);
    let mut first = Record::from_deertier_record(&e, &mut store).unwrap();
    first.save(&mut store).unwrap();
    let changed = entry(17, "Someone else", "OneHundredPercent", Some("broken"), None);
    let again = Record::from_deertier_record(&changed, &mut store).unwrap();
    assert_eq!(again, first);
    assert_eq!(again.id, 1);
    assert_eq!(store.runners().len(), 1);
    assert_eq!(store.records().len(), 1);
}

#[test]
fn a_deertier_entry_numbered_zero_is_not_looked_up() {
    let mut store = Store::new();
    let mut stored = Record::from_deertier_record(&entry(0, "a", "RBO", Some("10:00"), None), &mut store).unwrap();
    stored.save(&mut store).unwrap();
    let other = Record::from_deertier_record(&entry(0, "b", "RBO", Some("11:00"), None), &mut store).unwrap();
    assert_eq!(other.id, 0);
    assert_eq!(other.runner_id, 2);
    assert_eq!(other.realtime, 660);
}

#[test]
fn a_deertier_entry_with_a_broken_time_is_invalid_data() {
    let mut store = Store::new();
    for (real, game) in [(Some("41.22"), None), (None, Some("x")), (Some("1"), Some("1:00")), (Some("1:00"), Some("35791394:08"))] {
        let e = entry(17, "Total", "RBO", real, game);
        assert_eq!(Record::from_deertier_record(&e, &mut store), Err(Error::InvalidData));
    }
    assert!(store.runners().is_empty());
    let fits = entry(17, "Total", "RBO", None, Some("35791394:07"));
    assert_eq!(Record::from_deertier_record(&fits, &mut store).unwrap().gametime, i32::MAX);
}

#[test]
fn deertier_runners_are_found_again_by_identifier_and_by_name() {
    let mut store = Store::new();
    Runner { id: 0, name: String::from("TOTAL"), dt_id: String::new(), src_id: String::from("u1"), sync: 1 }
        .save(&mut store)
        .unwrap();
    let first = Record::from_deertier_record(&entry(1, "Total", "RBO", None, None), &mut store).unwrap();
    assert_eq!(first.runner_id, 1);
    assert_eq!(store.runners()[0].dt_id, "Total");
    assert_eq!(store.runners()[0].src_id, "u1");
    let second = Record::from_deertier_record(&entry(2, "Total", "RBO", None, None), &mut store).unwrap();
    assert_eq!(second.runner_id, 1);
    let third = Record::from_deertier_record(&entry(3, "total", "RBO", None, None), &mut store).unwrap();
    assert_eq!(third.runner_id, 1);
    assert_eq!(store.runners().len(), 1);
    assert_eq!(store.runners()[0].dt_id, "Total");
}

#[test]
fn a_speedrun_run_becomes_a_record_to_save() {
    let mut store = Store::new();
    let users = vec![user("u1", "Zoast"), user("u2", "Total")];
    let mut run = src_run("yo4dnx1m", vec![player("u2"), player("u1")], Some(2500));
    run.times.ingame_t = Some(1500);
    run.comment = Some(String::from("wr"));
    run.videos = Some(SrcVideo {
        text: None,
        links: Some(vec![
            SrcLink { uri: Some(String::from("https://first")) },
            SrcLink { uri: Some(String::from("https://second")) },
        ]),
    });
    run.values.as_mut().unwrap().region = Some(String::from("jqzvzo4l"));
    let record = src().record_from_run(&users, &run, &mut store).unwrap().unwrap();
    assert_eq!(
        record,
        Record {
            id: 0,
            dt_id: 0,
            src_id: String::from("yo4dnx1m"),
            runner_id: 1,
            category: Category::AnyPercent,
            region: Region::PAL,
            realtime: 2500,
            gametime: 1500,
            comment: String::from("wr"),
            video: String::from("https://first"),
            active: 1,
        }
    );
    assert_eq!(
        *store.runners(),
        vec![Runner { id: 1, name: String::from("Total"), dt_id: String::new(), src_id: String::from("u2"), sync: 1 }]
    );
}

#[test]
fn a_speedrun_run_without_details() {
    let mut store = Store::new();
    let users = vec![user("u1", "Zoast")];
    let mut run = src_run("r1", vec![player("u1")], None);
    run.values = None;
    run.videos = Some(SrcVideo { text: Some(String::from("text")), links: Some(vec![]) });
    let record = src().record_from_run(&users, &run, &mut store).unwrap().unwrap();
    assert_eq!(record.category, Category::Unknown);
    assert_eq!(record.region, Region::NTSC);
    assert_eq!(record.realtime, 0);
    assert_eq!(record.gametime, 0);
    assert_eq!(record.video, "");
    assert_eq!(record.comment, "");
    let mut run = src_run("r2", vec![player("u1")], Some(5));
    run.category = None;
    run.videos = Some(SrcVideo { text: None, links: Some(vec![SrcLink { uri: None }]) });
    let record = src().record_from_run(&users, &run, &mut store).unwrap().unwrap();
    assert_eq!(record.category, Category::Unknown);
    assert_eq!(record.region, Region::NTSC);
    assert_eq!(record.video, "");
    let mut run = src_run("r3", vec![player("u1")], Some(5));
    run.videos = Some(SrcVideo { text: None, links: None });
    assert_eq!(src().record_from_run(&users, &run, &mut store).unwrap().unwrap().video, "");
}

#[test]
fn a_speedrun_guest_is_resolved_by_name() {
    let mut store = Store::new();
    Runner { id: 0, name: String::from("Guesty"), dt_id: String::from("guesty"), src_id: String::new(), sync: 1 }
        .save(&mut store)
        .unwrap();
    let users = vec![user("u1", "Zoast"), guest("GUESTY"), guest("New guest")];
    let run = src_run("r1", vec![guest_player("GUESTY")], Some(10));
    let record = src().record_from_run(&users, &run, &mut store).unwrap().unwrap();
    assert_eq!(record.runner_id, 1);
    assert_eq!(store.runners()[0].src_id, "");
    let run = src_run("r2", vec![guest_player("New guest")], Some(10));
    let record = src().record_from_run(&users, &run, &mut store).unwrap().unwrap();
    assert_eq!(record.runner_id, 2);
    assert_eq!(
        store.runners()[1],
        Runner { id: 2, name: String::from("New guest"), dt_id: String::new(), src_id: String::new(), sync: 1 }
    );
}

#[test]
fn a_speedrun_run_whose_player_is_not_listed_gives_nothing() {
    let mut store = Store::new();
    let users = vec![user("u1", "Zoast"), guest("Guesty")];
    let none: Option<Record> = None;
    let run = src_run("r1", vec![player("u2")], Some(10));
    assert_eq!(src().record_from_run(&users, &run, &mut store), Ok(none.clone()));
    let run = src_run("r2", vec![], Some(10));
    assert_eq!(src().record_from_run(&users, &run, &mut store), Ok(none.clone()));
    let run = src_run("r3", vec![guest_player("guesty")], Some(10));
    assert_eq!(src().record_from_run(&users, &run, &mut store), Ok(none.clone()));
    let run = src_run("r4", vec![guest_player("Zoast")], Some(10));
    assert_eq!(src().record_from_run(&users, &run, &mut store), Ok(none));
    assert!(store.runners().is_empty());
}

#[test]
fn a_speedrun_user_without_identifier_or_name_is_invalid_data() {
    let mut store = Store::new();
    let mut nameless = user("u1", "x");
    nameless.names = None;
    let run = src_run("r1", vec![player("u1")], Some(10));
    assert_eq!(src().record_from_run(&vec![nameless], &run, &mut store), Err(Error::InvalidData));
    let mut odd = guest("g");
    odd.rel = String::from("user");
    let run = src_run("r2", vec![guest_player("g")], Some(10));
    assert_eq!(src().record_from_run(&vec![odd], &run, &mut store), Err(Error::InvalidData));
    let mut no_name = user("u3", "x");
    no_name.rel = String::from("guest");
    let run = src_run("r3", vec![player("u3")], Some(10));
    assert_eq!(src().record_from_run(&vec![no_name], &run, &mut store), Err(Error::InvalidData));
    assert!(store.runners().is_empty());
}

#[test]
fn a_known_speedrun_run_gives_the_stored_record() {
    let mut store = Store::new();
    let users = vec![user("u1", "Zoast")];
    let run = src_run("r1", vec![player("u1")], Some(10));
    let mut record = src().record_from_run(&users, &run, &mut store).unwrap().unwrap();
    record.save(&mut store).unwrap();
    assert_eq!(record.id, 1);
    let changed = src_run("r1", vec![], Some(999));
    let again = src().record_from_run(&vec![], &changed, &mut store).unwrap().unwrap();
    assert_eq!(again, record);
    assert_eq!(store.records().len(), 1);
}

#[test]
fn all_runs_of_all_leaderboards_are_taken_in_order() {
    let mut store = Store::new();
    let first = board(
        vec![user("u1", "Zoast"), user("u2", "Total")],
        vec![
            src_run("a", vec![player("u2")], Some(100)),
            src_run("b", vec![player("u9")], Some(110)),
            src_run("c", vec![player("u1")], Some(120)),
        ],
    );
    let second = board(vec![user("u2", "Total"), guest("Someone")], vec![
        src_run("d", vec![guest_player("Someone")], Some(200)),
        src_run("e", vec![player("u2")], Some(210)),
    ]);
    let records = src().get_all_records(&vec![first, second], &mut store).unwrap();
    let seen: Vec<(&str, i32, i32)> =
        records.iter().map(|r| (r.src_id.as_str(), r.runner_id, r.realtime)).collect();
    assert_eq!(seen, vec![("a", 1, 100), ("c", 2, 120), ("d", 3, 200), ("e", 1, 210)]);
    let names: Vec<&str> = store.runners().iter().map(|r| r.name.as_str()).collect();
    assert_eq!(names, vec!["Total", "Zoast", "Someone"]);
    assert!(store.records().is_empty());
    assert!(src().get_all_records(&vec![], &mut store).unwrap().is_empty());
}

#[test]
fn taking_in_stops_at_the_first_run_that_fails() {
    let mut store = Store::new();
    let mut broken = user("u3", "x");
    broken.names = None;
    let first = board(
        vec![user("u1", "Zoast"), broken, user("u2", "Total")],
        vec![
            src_run("a", vec![player("u1")], Some(100)),
            src_run("b", vec![player("u3")], Some(110)),
            src_run("c", vec![player("u2")], Some(120)),
        ],
    );
    let second = board(vec![user("u2", "Total")], vec![src_run("d", vec![player("u2")], Some(200))]);
    assert_eq!(src().get_all_records(&vec![first, second], &mut store), Err(Error::InvalidData));
    assert_eq!(store.runners().len(), 1);
    assert_eq!(store.runners()[0].name, "Zoast");
}

#[test]
fn taking_in_and_saving_from_both_sources_gives_one_record_per_run() {
    let mut store = Store::new();
    let mut dt = entry(5, "Total", "AnyPercentRealTime", Some("41:40"), None);
    dt.comment = Some(String::from("from deertier"));
    let mut from_dt = Record::from_deertier_record(&dt, &mut store).unwrap();
    from_dt.save(&mut store).unwrap();

    let mut run = src_run("zz1", vec![player("u7")], Some(2500));
    run.comment = Some(String::from("from speedrun.com"));
    let lb = board(vec![user("u7", "total")], vec![run]);
    let mut records = src().get_all_records(&vec![lb], &mut store).unwrap();
    assert_eq!(records.len(), 1);
    for record in records.iter_mut() {
        record.save(&mut store).unwrap();
    }
    assert_eq!(store.runners().len(), 1);
    assert_eq!(
        store.runners()[0],
        Runner { id: 1, name: String::from("Total"), dt_id: String::from("Total"), src_id: String::from("u7"), sync: 1 }
    );
    assert_eq!(store.records().len(), 1);
    let stored = &store.records()[0];
    assert_eq!(stored.dt_id, 5);
    assert_eq!(stored.src_id, "zz1");
    assert_eq!(stored.comment, "from deertier");
    assert_eq!(stored.realtime, 2500);
    assert_eq!(stored.active, 1);
    assert_eq!(records[0], *stored);
}
