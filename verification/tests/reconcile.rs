use shaktool::category::{Category, Region};
use shaktool::error::Error;
use shaktool::record::Record;
use shaktool::runner::Runner;
use shaktool::store::reconcile::Tier;
use shaktool::store::runners::Source;
use shaktool::store::Store;

fn run(dt_id: i32, src_id: &str, runner_id: i32, category: Category, realtime: i32) -> Record {
    Record {
        id: 0,
        dt_id,
        src_id: String::from(src_id),
        runner_id,
        category,
        region: Region::NTSC,
        realtime,
        gametime: 0,
        comment: String::new(),
        video: String::new(),
        active: 1,
    }
}

fn store_with_runners(names: &[&str]) -> Store {
    let mut store = Store::new();
    for name in names {
        Runner::new(String::from(*name), String::new(), String::new(), 1).save(&mut store).unwrap();
    }
    store
}

fn active_flags(store: &Store) -> Vec<i32> {
    store.records().iter().map(|r| r.active).collect()
}

fn at_most_one_best_each(store: &Store) -> bool {
    let ranked: Vec<&Record> =
        store.records().iter().filter(|r| r.active == 1 && r.realtime != 0).collect();
    for (i, a) in ranked.iter().enumerate() {
        for b in ranked.iter().skip(i + 1) {
            if a.runner_id == b.runner_id && a.category == b.category && a.region == b.region {
                return false;
            }
        }
    }
    true
}

#[test]
fn a_new_run_is_inserted_as_the_best() {
    let mut store = store_with_runners(&["Total"]);
    let stored = store.reconcile(&run(11, "", 1, Category::AnyPercent, 3600)).unwrap();
    assert_eq!(stored.id, 1);
    assert_eq!(stored.active, 1);
    assert_eq!(stored.dt_id, 11);
    assert_eq!(stored.runner_id, 1);
    assert_eq!(stored.realtime, 3600);
    assert_eq!(store.records().len(), 1);
    assert_eq!(store.records()[0], stored);
}

#[test]
fn a_faster_run_takes_over_from_a_slower_one() {
    let mut store = Store::new();
    let total = store.resolve_runner(Source::DeerTier, "Total", "Total").unwrap();
    let a = store.reconcile(&run(1, "", total.id, Category::AnyPercent, 3600)).unwrap();
    let total_again = store.resolve_runner(Source::DeerTier, "Total", "Total").unwrap();
    let b = store.reconcile(&run(2, "", total_again.id, Category::AnyPercent, 3000)).unwrap();
    assert_eq!(store.runners().len(), 1);
    assert_eq!(store.runners()[0].name, "Total");
    assert_eq!(store.records().len(), 2);
    assert_eq!(a.id, 1);
    assert_eq!(b.id, 2);
    assert_eq!(store.records()[0].realtime, 3600);
    assert_eq!(store.records()[0].active, 0);
    assert_eq!(store.records()[1].realtime, 3000);
    assert_eq!(store.records()[1].active, 1);
    assert_eq!(b.active, 1);
    // The rank counts the ranked runs that are not slower: only the faster
    // run is ranked, so one run counts.
    assert_eq!(store.records()[0].get_rank(&store), 1);
    assert_eq!(store.records()[1].get_rank(&store), 1);
}

#[test]
fn a_slower_run_is_inserted_as_not_the_best() {
    let mut store = store_with_runners(&["Total"]);
    store.reconcile(&run(1, "", 1, Category::AnyPercent, 3000)).unwrap();
    let slower = store.reconcile(&run(2, "", 1, Category::AnyPercent, 3600)).unwrap();
    assert_eq!(slower.active, 0);
    assert_eq!(slower.id, 2);
    assert_eq!(active_flags(&store), vec![1, 0]);
}

#[test]
fn best_runs_are_kept_per_runner_category_and_region() {
    let mut store = store_with_runners(&["a", "b"]);
    store.reconcile(&run(1, "", 1, Category::AnyPercent, 3000)).unwrap();
    store.reconcile(&run(2, "", 2, Category::AnyPercent, 2000)).unwrap();
    store.reconcile(&run(3, "", 1, Category::RBO, 1000)).unwrap();
    let mut pal = run(4, "", 1, Category::AnyPercent, 500);
    pal.region = Region::PAL;
    store.reconcile(&pal).unwrap();
    assert_eq!(active_flags(&store), vec![1, 1, 1, 1]);
    store.reconcile(&run(5, "", 1, Category::AnyPercent, 2500)).unwrap();
    assert_eq!(active_flags(&store), vec![0, 1, 1, 1, 1]);
}

#[test]
fn a_run_without_a_known_time_is_never_the_best_and_beats_nothing() {
    let mut store = store_with_runners(&["a"]);
    store.reconcile(&run(1, "", 1, Category::AnyPercent, 3000)).unwrap();
    let unknown = store.reconcile(&run(2, "", 1, Category::AnyPercent, 0)).unwrap();
    assert_eq!(unknown.active, 0);
    assert_eq!(active_flags(&store), vec![1, 0]);
    let later = store.reconcile(&run(3, "", 1, Category::AnyPercent, 2000)).unwrap();
    assert_eq!(later.active, 1);
    assert_eq!(active_flags(&store), vec![0, 0, 1]);
}

#[test]
fn a_run_without_a_known_time_comes_first() {
    let mut store = store_with_runners(&["a"]);
    let unknown = store.reconcile(&run(1, "", 1, Category::AnyPercent, 0)).unwrap();
    assert_eq!(unknown.active, 0);
    let timed = store.reconcile(&run(2, "", 1, Category::AnyPercent, 100)).unwrap();
    assert_eq!(timed.active, 1);
    assert_eq!(active_flags(&store), vec![0, 1]);
}

#[test]
fn the_active_flag_of_the_reported_run_is_not_taken_over() {
    let mut store = store_with_runners(&["a"]);
    let mut reported = run(1, "", 1, Category::AnyPercent, 100);
    reported.active = 0;
    assert_eq!(store.reconcile(&reported).unwrap().active, 1);
    let mut slower = run(2, "", 1, Category::AnyPercent, 200);
    slower.active = 1;
    assert_eq!(store.reconcile(&slower).unwrap().active, 0);
}

#[test]
fn reconciling_twice_changes_nothing_the_second_time() {
    let mut store = store_with_runners(&["a"]);
    store.reconcile(&run(1, "", 1, Category::AnyPercent, 3000)).unwrap();
    let mut again = run(9, "src9", 1, Category::AnyPercent, 2000);
    again.comment = String::from("pb");
    again.video = String::from("https://v/9");
    let first = store.reconcile(&again).unwrap();
    let runners: Vec<Runner> = store.runners().clone();
    let records: Vec<Record> = store.records().clone();
    let second = store.reconcile(&again).unwrap();
    assert_eq!(second, first);
    assert_eq!(second.id, 2);
    assert_eq!(*store.runners(), runners);
    assert_eq!(*store.records(), records);
    assert_eq!(active_flags(&store), vec![0, 1]);
}

#[test]
fn a_known_source_identifier_returns_the_stored_record_unchanged() {
    let mut store = store_with_runners(&["a", "b"]);
    let mut earlier = run(0, "abc", 1, Category::AnyPercent, 3000);
    earlier.comment = String::from("first");
    let stored = store.reconcile(&earlier).unwrap();
    let mut different = run(0, "abc", 2, Category::RBO, 1);
    different.comment = String::from("second");
    different.video = String::from("https://v");
    different.gametime = 77;
    assert_eq!(store.find_match(&different), Some((Tier::SourceId, 1)));
    let found = store.reconcile(&different).unwrap();
    assert_eq!(found, stored);
    assert_eq!(store.records().len(), 1);
    assert_eq!(store.records()[0], stored);
}

#[test]
fn an_unknown_source_identifier_matches_nothing() {
    let mut store = store_with_runners(&["a", "b"]);
    store.reconcile(&run(0, "abc", 1, Category::AnyPercent, 3000)).unwrap();
    let other = run(0, "", 2, Category::AnyPercent, 3000);
    assert_eq!(store.find_match(&other), None);
    let stored = store.reconcile(&other).unwrap();
    assert_eq!(stored.id, 2);
    assert_eq!(store.records().len(), 2);
}

#[test]
fn the_same_run_from_a_second_source_is_merged() {
    let mut store = store_with_runners(&["a"]);
    let mut from_dt = run(41, "", 1, Category::AnyPercent, 3000);
    from_dt.gametime = 1800;
    from_dt.comment = String::from("deertier comment");
    store.reconcile(&from_dt).unwrap();
    store.reconcile(&run(42, "", 1, Category::AnyPercent, 2000)).unwrap();
    let mut from_src = run(0, "yo4dnx1m", 1, Category::AnyPercent, 3000);
    from_src.gametime = 1801;
    from_src.comment = String::from("speedrun comment");
    from_src.video = String::from("https://video");
    assert_eq!(store.find_match(&from_src), Some((Tier::SameRun, 1)));
    let merged = store.reconcile(&from_src).unwrap();
    assert_eq!(
        merged,
        Record {
            id: 1,
            dt_id: 41,
            src_id: String::from("yo4dnx1m"),
            runner_id: 1,
            category: Category::AnyPercent,
            region: Region::NTSC,
            realtime: 3000,
            gametime: 1800,
            comment: String::from("deertier comment"),
            video: String::from("https://video"),
            active: 0,
        }
    );
    assert_eq!(store.records().len(), 2);
    assert_eq!(store.records()[0], merged);
    assert_eq!(active_flags(&store), vec![0, 1]);
}

#[test]
fn a_merge_takes_the_source_identifiers_that_the_run_knows() {
    let mut store = store_with_runners(&["a"]);
    store.reconcile(&run(41, "old", 1, Category::AnyPercent, 3000)).unwrap();
    let merged = store.reconcile(&run(43, "", 1, Category::AnyPercent, 3000)).unwrap();
    assert_eq!(merged.dt_id, 43);
    assert_eq!(merged.src_id, "old");
    let merged = store.reconcile(&run(0, "new", 1, Category::AnyPercent, 3000)).unwrap();
    assert_eq!(merged.dt_id, 43);
    assert_eq!(merged.src_id, "new");
    assert_eq!(store.records().len(), 1);
}

#[test]
fn a_matching_video_under_another_runner_is_the_same_run() {
    let mut store = Store::new();
    let mut zoast = Runner::new(String::from("Zoast"), String::from("zoast"), String::new(), 1);
    zoast.save(&mut store).unwrap();
    let mut stored = run(5, "", zoast.id, Category::AnyPercent, 2500);
    stored.video = String::from("https://video/1");
    stored.comment = String::from("first");
    let stored = store.reconcile(&stored).unwrap();

    let mut alias = Runner::new(String::from("zoasty"), String::new(), String::from("u77"), 1);
    alias.save(&mut store).unwrap();
    let mut observed = run(0, "", alias.id, Category::AnyPercent, 2500);
    observed.video = String::from("https://video/1");
    observed.comment = String::from("second");
    assert_eq!(store.find_match(&observed), Some((Tier::Video, stored.id)));
    let found = store.reconcile(&observed).unwrap();

    assert_eq!(store.records().len(), 1);
    assert_eq!(found.id, stored.id);
    assert_eq!(found.runner_id, zoast.id);
    assert_eq!(found.comment, "first");
    assert_eq!(found.dt_id, 5);
    assert_eq!(found.src_id, "");
    assert_eq!(found.active, 1);
    assert_eq!(store.records()[0], found);
    assert_eq!(store.runners().len(), 2);
    assert_eq!(store.runners()[0].dt_id, "zoast");
    assert_eq!(store.runners()[0].src_id, "u77");
    assert_eq!(store.runners()[0].name, "Zoast");
    assert_eq!(store.runners()[1], alias);
}

#[test]
fn a_video_match_does_not_overwrite_identifiers_that_the_runner_has() {
    let mut store = Store::new();
    let mut owner = Runner::new(String::from("Owner"), String::from("dt-o"), String::from("src-o"), 1);
    owner.save(&mut store).unwrap();
    let mut reporter = Runner::new(String::from("Reporter"), String::from("dt-r"), String::from("src-r"), 1);
    reporter.save(&mut store).unwrap();
    let mut stored = run(5, "", owner.id, Category::RBO, 2500);
    stored.video = String::from("v");
    store.reconcile(&stored).unwrap();
    let mut observed = run(0, "s", reporter.id, Category::RBO, 2500);
    observed.video = String::from("v");
    let found = store.reconcile(&observed).unwrap();
    assert_eq!(found.src_id, "s");
    assert_eq!(found.runner_id, owner.id);
    assert_eq!(store.runners()[0], owner);
    assert_eq!(store.runners()[1], reporter);
}

#[test]
fn an_empty_video_matches_nothing() {
    let mut store = store_with_runners(&["a", "b"]);
    store.reconcile(&run(1, "", 1, Category::AnyPercent, 2500)).unwrap();
    let observed = run(2, "", 2, Category::AnyPercent, 2500);
    assert_eq!(store.find_match(&observed), None);
    store.reconcile(&observed).unwrap();
    assert_eq!(store.records().len(), 2);
}

#[test]
fn a_video_matches_only_within_category_region_and_time() {
    let mut store = store_with_runners(&["a", "b"]);
    let mut stored = run(1, "", 1, Category::AnyPercent, 2500);
    stored.video = String::from("v");
    store.reconcile(&stored).unwrap();
    let mut other_time = run(2, "", 2, Category::AnyPercent, 2501);
    other_time.video = String::from("v");
    assert_eq!(store.find_match(&other_time), None);
    let mut other_category = run(2, "", 2, Category::RBO, 2500);
    other_category.video = String::from("v");
    assert_eq!(store.find_match(&other_category), None);
    let mut other_region = run(2, "", 2, Category::AnyPercent, 2500);
    other_region.video = String::from("v");
    other_region.region = Region::PAL;
    assert_eq!(store.find_match(&other_region), None);
}

#[test]
fn a_matching_comment_under_another_runner_is_the_same_run() {
    let mut store = Store::new();
    let mut owner = Runner::new(String::from("Owner"), String::new(), String::from("src-o"), 1);
    owner.save(&mut store).unwrap();
    let mut reporter = Runner::new(String::from("Reporter"), String::from("dt-r"), String::from("src-r"), 1);
    reporter.save(&mut store).unwrap();
    let mut stored = run(0, "s1", owner.id, Category::RBO, 2500);
    stored.comment = String::from("first try");
    stored.video = String::from("video a");
    store.reconcile(&stored).unwrap();
    let mut observed = run(8, "", reporter.id, Category::RBO, 2500);
    observed.comment = String::from("first try");
    observed.video = String::from("video b");
    observed.gametime = 99;
    assert_eq!(store.find_match(&observed), Some((Tier::Comment, 1)));
    let found = store.reconcile(&observed).unwrap();
    assert_eq!(store.records().len(), 1);
    assert_eq!(found.id, 1);
    assert_eq!(found.dt_id, 8);
    assert_eq!(found.src_id, "s1");
    assert_eq!(found.video, "video a");
    assert_eq!(found.gametime, 99);
    assert_eq!(found.runner_id, owner.id);
    assert_eq!(store.runners()[0].dt_id, "dt-r");
    assert_eq!(store.runners()[0].src_id, "src-o");
}

#[test]
fn the_ways_to_recognise_a_run_are_tried_in_order() {
    let mut store = store_with_runners(&["a", "b", "c"]);
    let mut by_comment = run(1, "", 2, Category::AnyPercent, 100);
    by_comment.comment = String::from("c");
    assert_eq!(store.reconcile(&by_comment).unwrap().id, 1);
    let mut by_video = run(2, "", 3, Category::AnyPercent, 100);
    by_video.video = String::from("v");
    by_video.comment = String::from("other");
    assert_eq!(store.reconcile(&by_video).unwrap().id, 2);

    let mut observed = run(0, "", 1, Category::AnyPercent, 100);
    observed.video = String::from("v");
    observed.comment = String::from("c");
    assert_eq!(store.find_match(&observed), Some((Tier::Video, 2)));
    observed.video = String::new();
    assert_eq!(store.find_match(&observed), Some((Tier::Comment, 1)));
    observed.video = String::from("v");

    assert_eq!(store.reconcile(&run(3, "", 1, Category::AnyPercent, 100)).unwrap().id, 3);
    assert_eq!(store.find_match(&observed), Some((Tier::SameRun, 3)));
    observed.dt_id = 1;
    assert_eq!(store.find_match(&observed), Some((Tier::SourceId, 1)));
    observed.dt_id = 0;
    observed.src_id = String::from("nothing has this");
    assert_eq!(store.find_match(&observed), Some((Tier::SameRun, 3)));
    assert_eq!(store.records().len(), 3);
    assert_eq!(store.records()[0].get_rank(&store), 3);
}

#[test]
fn negative_times_are_invalid_data() {
    let mut store = store_with_runners(&["a"]);
    assert_eq!(store.reconcile(&run(1, "", 1, Category::AnyPercent, -1)), Err(Error::InvalidData));
    let mut negative_gametime = run(1, "", 1, Category::AnyPercent, 10);
    negative_gametime.gametime = -5;
    assert_eq!(store.reconcile(&negative_gametime), Err(Error::InvalidData));
    assert!(store.records().is_empty());
}

#[test]
fn a_run_of_a_runner_that_is_not_stored_is_not_found() {
    let mut store = store_with_runners(&["a"]);
    assert_eq!(store.reconcile(&run(1, "", 2, Category::AnyPercent, 10)), Err(Error::NotFound));
    assert_eq!(store.reconcile(&run(1, "", 0, Category::AnyPercent, 10)), Err(Error::NotFound));
    assert!(store.records().is_empty());
}

#[test]
fn a_new_record_when_no_identifier_is_left_is_a_store_failure() {
    let runner = Runner { id: 1, name: String::from("a"), dt_id: String::new(), src_id: String::new(), sync: 1 };
    let mut last = run(1, "", 1, Category::AnyPercent, 10);
    last.id = i32::MAX;
    let mut store = Store::load(vec![runner], vec![last]).unwrap();
    assert_eq!(store.reconcile(&run(2, "", 1, Category::AnyPercent, 5)), Err(Error::Store));
    assert_eq!(store.records().len(), 1);
    assert_eq!(store.records()[0].active, 1);
    assert!(store.reconcile(&run(1, "", 1, Category::RBO, 5)).is_ok());
}

#[test]
fn saving_a_record_without_identifier_reconciles_it() {
    let mut store = store_with_runners(&["a"]);
    let mut first = run(1, "", 1, Category::AnyPercent, 100);
    assert_eq!(first.save(&mut store), Ok(()));
    assert_eq!(first.id, 1);
    assert_eq!(first.active, 1);
    let mut second = run(0, "s", 1, Category::AnyPercent, 100);
    second.active = 0;
    assert_eq!(second.save(&mut store), Ok(()));
    assert_eq!(second.id, 1);
    assert_eq!(second.dt_id, 1);
    assert_eq!(second.src_id, "s");
    assert_eq!(second.active, 1);
    assert_eq!(store.records().len(), 1);
    assert_eq!(store.records()[0], second);
}

#[test]
fn saving_a_record_with_identifier_replaces_its_row() {
    let mut store = store_with_runners(&["a", "b"]);
    let mut first = run(1, "", 1, Category::AnyPercent, 100);
    first.save(&mut store).unwrap();
    let mut second = run(2, "", 1, Category::RBO, 200);
    second.save(&mut store).unwrap();
    first.comment = String::from("edited");
    first.active = 0;
    first.runner_id = 2;
    first.realtime = 150;
    assert_eq!(first.save(&mut store), Ok(()));
    assert_eq!(store.records().len(), 2);
    assert_eq!(store.records()[0], first);
    assert_eq!(store.records()[1], second);
}

#[test]
fn saving_a_record_with_identifier_checks_it() {
    let mut store = store_with_runners(&["a"]);
    let mut stored = run(1, "", 1, Category::AnyPercent, 100);
    stored.save(&mut store).unwrap();
    let mut unknown = run(1, "", 1, Category::AnyPercent, 100);
    unknown.id = 7;
    assert_eq!(unknown.save(&mut store), Err(Error::NotFound));
    let mut orphan = run(1, "", 9, Category::AnyPercent, 100);
    orphan.id = 1;
    assert_eq!(orphan.save(&mut store), Err(Error::NotFound));
    let mut negative = run(1, "", 1, Category::AnyPercent, -100);
    negative.id = 1;
    assert_eq!(negative.save(&mut store), Err(Error::InvalidData));
    assert_eq!(negative.realtime, -100);
    assert_eq!(store.records().len(), 1);
    assert_eq!(store.records()[0], stored);
}

#[test]
fn no_sequence_of_reconciliations_leaves_two_best_runs() {
    let mut store = store_with_runners(&["a", "b", "c"]);
    let times = [500, 300, 0, 700, 300, 200, 900, 0, 100, 100, 450, 50];
    let categories = [Category::AnyPercent, Category::RBO];
    let mut n = 0;
    for round in 0..3 {
        for (i, t) in times.iter().enumerate() {
            n += 1;
            let mut r = run(n, "", 1 + ((i + round) % 3) as i32, categories[(i / 2 + round) % 2], *t);
            if i % 5 == 0 {
                r.region = Region::PAL;
            }
            if i % 4 == 1 {
                r.video = format!("video {}", t);
            }
            store.reconcile(&r).unwrap();
            assert!(at_most_one_best_each(&store), "after run {}", n);
        }
    }
    let ids: Vec<i32> = store.records().iter().map(|r| r.id).collect();
    let expected: Vec<i32> = (1..=ids.len() as i32).collect();
    assert_eq!(ids, expected);
}

#[test]
fn the_best_run_is_the_fastest_of_those_with_a_known_time() {
    let mut store = store_with_runners(&["a"]);
    for (n, t) in [400, 0, 250, 600, 250, 100, 300].iter().enumerate() {
        store.reconcile(&run(n as i32 + 1, "", 1, Category::AnyPercent, *t)).unwrap();
    }
    let best: Vec<&Record> = store.records().iter().filter(|r| r.active == 1).collect();
    assert_eq!(best.len(), 1);
    assert_eq!(best[0].realtime, 100);
    assert_eq!(store.records().len(), 6);
}

#[test]
fn reconciling_twice_without_source_identifier_changes_nothing_either() {
    let mut store = Store::new();
    let mut owner = Runner::new(String::from("Owner"), String::from("dt"), String::new(), 1);
    owner.save(&mut store).unwrap();
    let mut reporter = Runner::new(String::from("Reporter"), String::new(), String::from("src"), 1);
    reporter.save(&mut store).unwrap();
    let mut stored = run(3, "", owner.id, Category::RBO, 900);
    stored.comment = String::from("what a run");
    store.reconcile(&stored).unwrap();

    let mut by_comment = run(0, "", reporter.id, Category::RBO, 900);
    by_comment.comment = String::from("what a run");
    by_comment.video = String::from("https://late");
    let new_run = run(0, "", reporter.id, Category::RBO, 800);
    let same_run = run(0, "", owner.id, Category::RBO, 900);
    for observed in [by_comment, new_run, same_run] {
        let first = store.reconcile(&observed).unwrap();
        let runners: Vec<Runner> = store.runners().clone();
        let records: Vec<Record> = store.records().clone();
        let second = store.reconcile(&observed).unwrap();
        assert_eq!(second, first);
        assert_eq!(*store.runners(), runners);
        assert_eq!(*store.records(), records);
    }
    assert_eq!(store.records().len(), 2);
    assert_eq!(store.records()[0].video, "https://late");
    assert_eq!(store.runners()[0].src_id, "src");
}
