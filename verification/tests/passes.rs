use sat_tracker::passes::{PassAction, PassSearch, PassWindow};

fn run(reading: impl Fn(i64) -> Option<bool>) -> Result<Vec<PassWindow>, String> {
    let (mut search, mut action) = PassSearch::start();
    loop {
        action = match action {
            PassAction::Sample(t) => search.advance(reading(t)),
            PassAction::Edge(t) => search.advance(Some(reading(t).expect("edge reading"))),
            PassAction::Finish(r) => return r,
        };
    }
}

#[test]
fn periodic_passes_are_found_in_order() {
    let passes = run(|t| Some(t.rem_euclid(20000) >= 1000 && t.rem_euclid(20000) < 1600)).unwrap();
    assert_eq!(passes.len(), 10);
    for (k, p) in passes.iter().enumerate() {
        let k = k as i64;
        assert_eq!(*p, PassWindow { start: 999 + 20000 * k, end: 1600 + 20000 * k });
    }
}

#[test]
fn missing_reading_fails() {
    assert_eq!(
        run(|t| if t == 600 { None } else { Some(false) }),
        Err("failed to find elevation of satellite".to_string())
    );
}

#[test]
fn no_pass_in_a_week_fails() {
    assert_eq!(run(|_| Some(false)), Err("no pass was found within the next week".to_string()));
}

#[test]
fn geostationary_fails() {
    assert_eq!(
        run(|t| Some((0..604800).contains(&t) && t >= 60 * 2079)),
        Err("satellite is likely geostationary, a pass cannot be found".to_string())
    );
}

#[test]
fn eight_thousand_minutes_is_still_a_pass() {
    // minutes 2080..10079 are above: 8000 of them; the second scan finds none
    assert_eq!(
        run(|t| Some((60 * 2080..604800).contains(&t))),
        Err("no pass was found within the next week".to_string())
    );
}

#[test]
fn first_request_is_the_start() {
    let (search, action) = PassSearch::start();
    assert!(matches!(action, PassAction::Sample(0)));
    assert_eq!(search.origin, 0);
    assert!(search.passes.is_empty());
}

#[test]
fn scan_samples_each_minute_then_walks_the_edges() {
    let (mut s, a) = PassSearch::start();
    assert!(matches!(a, PassAction::Sample(0)));
    let a = s.advance(Some(false));
    assert!(matches!(a, PassAction::Sample(60)));
    let a = s.advance(Some(true));
    assert!(matches!(a, PassAction::Sample(120)));
    let mut a = a;
    for _ in 2..10080 {
        a = s.advance(Some(false));
    }
    // the week is scanned: walk back from the first minute above
    assert!(matches!(a, PassAction::Edge(60)));
    let a = s.advance(Some(true));
    assert!(matches!(a, PassAction::Edge(59)));
    let a = s.advance(Some(false));
    assert!(matches!(a, PassAction::Edge(60)));
    let a = s.advance(Some(true));
    assert!(matches!(a, PassAction::Edge(61)));
    let a = s.advance(Some(false));
    // the next scan starts ten seconds after the end
    assert!(matches!(a, PassAction::Sample(71)));
    assert_eq!(s.passes, vec![PassWindow { start: 59, end: 61 }]);
}

#[test]
fn pass_edges_are_below_and_inside_is_above() {
    let above = |t: i64| (5000..5300).contains(&t.rem_euclid(100_000));
    let passes = run(|t| Some(above(t))).unwrap();
    for p in &passes {
        assert!(!above(p.start) && !above(p.end));
        assert!((p.start + 1..p.end).all(above));
    }
    for w in passes.windows(2) {
        assert!(w[0].end + 10 <= w[1].end);
        assert!(w[0].end <= w[1].start);
    }
    for p in &passes {
        assert!(p.start < p.end);
    }
}
