use albumseq_cli::allocation::{allocate_sides, split_tracklist_by_side};
use albumseq_cli::model::{
    validate_request, ConfigError, Constraint, ConstraintKind, Medium, Track, Tracklist,
};
use albumseq_cli::ranking::{enter_proposal, evaluate, propose, try_propose, Proposal};
use albumseq_cli::scoring::{score_allocation, score_tracklist};

const MINUTE: u64 = 60_000;

fn track(title: &str, minutes: u64) -> Track {
    Track { title: title.to_string(), duration: minutes * MINUTE }
}

fn tracklist(entries: &[(&str, u64)]) -> Tracklist {
    Tracklist(entries.iter().map(|(t, m)| track(t, *m)).collect())
}

fn medium(sides: usize, minutes: u64) -> Medium {
    Medium { sides, max_duration_per_side: minutes * MINUTE, name: "Vinyl".to_string() }
}

fn titles(tracks: &[Track]) -> Vec<String> {
    tracks.iter().map(|t| t.title.clone()).collect()
}

fn side_titles(sides: &[Vec<Track>]) -> Vec<Vec<String>> {
    sides.iter().map(|s| titles(s)).collect()
}

fn names(list: &[&str]) -> Vec<String> {
    list.iter().map(|s| s.to_string()).collect()
}

fn adjacent(a: &str, b: &str, weight: usize) -> Constraint {
    Constraint { kind: ConstraintKind::Adjacent(a.to_string(), b.to_string()), weight }
}

fn at_position(title: &str, position: usize, weight: usize) -> Constraint {
    Constraint { kind: ConstraintKind::AtPosition(title.to_string(), position), weight }
}

fn on_same_side(a: &str, b: &str, weight: usize) -> Constraint {
    Constraint { kind: ConstraintKind::OnSameSide(a.to_string(), b.to_string()), weight }
}

fn summary(proposals: &[Proposal]) -> Vec<(u128, Vec<String>)> {
    proposals.iter().map(|p| (p.score, titles(&p.tracklist.0))).collect()
}

#[test]
fn adjacent_pair_scores_in_every_order() {
    let m = medium(2, 5);
    let constraints = vec![adjacent("A", "B", 10)];
    let scored = |order: &[(&str, u64)]| score_tracklist(&tracklist(order), &constraints, &m);
    assert_eq!(scored(&[("A", 3), ("B", 4), ("C", 2)]), 10);
    assert_eq!(scored(&[("B", 4), ("A", 3), ("C", 2)]), 10);
    assert_eq!(scored(&[("C", 2), ("A", 3), ("B", 4)]), 10);
    assert_eq!(scored(&[("C", 2), ("B", 4), ("A", 3)]), 10);
    assert_eq!(scored(&[("A", 3), ("C", 2), ("B", 4)]), 0);
    assert_eq!(scored(&[("B", 4), ("C", 2), ("A", 3)]), 0);
}

#[test]
fn three_tracks_on_two_sides_of_five_minutes() {
    let m = medium(2, 5);
    let abc = tracklist(&[("A", 3), ("B", 4), ("C", 2)]);
    let packing = allocate_sides(&abc, &m);
    assert!(!packing.feasible);
    assert!(!m.fits(&abc));
    assert_eq!(side_titles(&packing.sides), vec![names(&["A"]), names(&["B"])]);

    let acb = tracklist(&[("A", 3), ("C", 2), ("B", 4)]);
    let packing = allocate_sides(&acb, &m);
    assert!(packing.feasible);
    assert!(m.fits(&acb));
    assert_eq!(side_titles(&packing.sides), vec![names(&["A", "C"]), names(&["B"])]);

    let cba = tracklist(&[("C", 2), ("B", 4), ("A", 3)]);
    assert!(!m.fits(&cba));
}

#[test]
fn proposals_for_three_tracks_on_two_sides() {
    let tracks = vec![track("A", 3), track("B", 4), track("C", 2)];
    let m = medium(2, 5);
    let constraints = vec![adjacent("A", "B", 10)];
    let proposals = propose(&tracks, &constraints, &m, 10, None);
    assert_eq!(
        summary(&proposals),
        vec![
            (10, names(&["B", "A", "C"])),
            (10, names(&["C", "A", "B"])),
            (0, names(&["A", "C", "B"])),
            (0, names(&["B", "C", "A"])),
        ]
    );
    assert_eq!(side_titles(&proposals[0].sides), vec![names(&["B"]), names(&["A", "C"])]);
    assert_eq!(side_titles(&proposals[1].sides), vec![names(&["C", "A"]), names(&["B"])]);
    assert_eq!(side_titles(&proposals[2].sides), vec![names(&["A", "C"]), names(&["B"])]);
    assert_eq!(side_titles(&proposals[3].sides), vec![names(&["B"]), names(&["C", "A"])]);
}

#[test]
fn empty_tracklist_fits_without_sides() {
    let empty = Tracklist(Vec::new());
    for sides in [0usize, 1, 3] {
        let m = medium(sides, 5);
        let packing = allocate_sides(&empty, &m);
        assert!(packing.feasible);
        assert!(packing.sides.is_empty());
        assert!(m.fits(&empty));
    }
}

#[test]
fn track_longer_than_a_side_never_fits() {
    let m = medium(3, 5);
    for order in [
        vec![("Long", 6), ("A", 1), ("B", 1)],
        vec![("A", 1), ("Long", 6), ("B", 1)],
        vec![("A", 1), ("B", 1), ("Long", 6)],
    ] {
        let list = tracklist(&order);
        assert!(!m.fits(&list));
        assert!(!allocate_sides(&list, &m).feasible);
    }
    let first = allocate_sides(&tracklist(&[("Long", 6), ("A", 1)]), &m);
    assert!(first.sides.is_empty());
    let later = allocate_sides(&tracklist(&[("A", 1), ("Long", 6), ("B", 1)]), &m);
    assert_eq!(side_titles(&later.sides), vec![names(&["A"])]);
}

#[test]
fn track_that_fills_a_side_exactly_fits() {
    let m = medium(1, 5);
    assert!(m.fits(&tracklist(&[("A", 5)])));
    assert!(m.fits(&tracklist(&[("A", 2), ("B", 3)])));
    let over = Tracklist(vec![track("A", 2), Track { title: "B".to_string(), duration: 3 * MINUTE + 1 }]);
    assert!(!m.fits(&over));
}

#[test]
fn medium_without_sides_takes_no_track() {
    let m = medium(0, 5);
    let list = tracklist(&[("A", 1)]);
    let packing = allocate_sides(&list, &m);
    assert!(!packing.feasible);
    assert!(packing.sides.is_empty());
}

#[test]
fn packing_never_reorders() {
    let m = medium(3, 5);
    let list = tracklist(&[("A", 4), ("B", 1), ("C", 4), ("D", 2), ("E", 3)]);
    let sides = split_tracklist_by_side(&list, &m);
    assert_eq!(
        side_titles(&sides),
        vec![names(&["A", "B"]), names(&["C"]), names(&["D", "E"])]
    );
}

#[test]
fn durations_near_the_largest_number_do_not_wrap() {
    let m = Medium { sides: 2, max_duration_per_side: u64::MAX, name: String::new() };
    let list = Tracklist(vec![
        Track { title: "A".to_string(), duration: u64::MAX - 1 },
        Track { title: "B".to_string(), duration: 2 },
        Track { title: "C".to_string(), duration: u64::MAX - 2 },
    ]);
    let packing = allocate_sides(&list, &m);
    assert!(packing.feasible);
    assert_eq!(side_titles(&packing.sides), vec![names(&["A"]), names(&["B", "C"])]);
}

#[test]
fn allocation_repeats() {
    let m = medium(2, 5);
    let list = tracklist(&[("B", 4), ("A", 3), ("C", 2)]);
    let first = allocate_sides(&list, &m);
    let second = allocate_sides(&list, &m);
    assert_eq!(first.feasible, second.feasible);
    assert_eq!(side_titles(&first.sides), side_titles(&second.sides));
    let renamed = Medium { name: "Tape".to_string(), ..medium(2, 5) };
    let third = allocate_sides(&list, &renamed);
    assert_eq!(first.feasible, third.feasible);
    assert_eq!(side_titles(&first.sides), side_titles(&third.sides));
}

#[test]
fn at_position_is_met_only_at_that_position() {
    let m = medium(2, 10);
    let list = tracklist(&[("A", 3), ("B", 4), ("C", 2)]);
    assert_eq!(score_tracklist(&list, &vec![at_position("A", 0, 7)], &m), 7);
    assert_eq!(score_tracklist(&list, &vec![at_position("C", 2, 7)], &m), 7);
    assert_eq!(score_tracklist(&list, &vec![at_position("A", 1, 7)], &m), 0);
    assert_eq!(score_tracklist(&list, &vec![at_position("A", 3, 7)], &m), 0);
    assert_eq!(score_tracklist(&list, &vec![at_position("A", usize::MAX, 7)], &m), 0);
    assert_eq!(score_tracklist(&list, &vec![at_position("Z", 0, 7)], &m), 0);
}

#[test]
fn titles_are_matched_with_their_case() {
    let m = medium(2, 10);
    let list = tracklist(&[("Intro", 3), ("Song", 4)]);
    assert_eq!(score_tracklist(&list, &vec![at_position("intro", 0, 5)], &m), 0);
    assert_eq!(score_tracklist(&list, &vec![adjacent("intro", "Song", 5)], &m), 0);
    assert_eq!(score_tracklist(&list, &vec![on_same_side("Intro", "song", 5)], &m), 0);
    assert_eq!(score_tracklist(&list, &vec![adjacent("Intro", "Song", 5)], &m), 5);
}

#[test]
fn any_track_with_the_title_counts() {
    let m = medium(2, 10);
    let list = tracklist(&[("X", 1), ("A", 1), ("X", 1), ("B", 1)]);
    assert_eq!(score_tracklist(&list, &vec![at_position("X", 2, 3)], &m), 3);
    assert_eq!(score_tracklist(&list, &vec![at_position("X", 0, 3)], &m), 3);
    assert_eq!(score_tracklist(&list, &vec![adjacent("X", "B", 3)], &m), 3);
    assert_eq!(score_tracklist(&list, &vec![adjacent("X", "X", 3)], &m), 0);
    let twins = tracklist(&[("X", 1), ("X", 1)]);
    assert_eq!(score_tracklist(&twins, &vec![adjacent("X", "X", 3)], &m), 3);
    assert_eq!(score_tracklist(&twins, &vec![on_same_side("X", "X", 3)], &m), 3);
}

#[test]
fn absent_title_and_self_comparison_score_nothing() {
    let m = medium(2, 10);
    let list = tracklist(&[("A", 3), ("B", 4), ("C", 2)]);
    let constraints = vec![
        adjacent("A", "Z", 1),
        adjacent("Z", "A", 2),
        on_same_side("A", "Z", 4),
        adjacent("A", "A", 8),
        on_same_side("A", "A", 16),
        at_position("Z", 1, 32),
    ];
    assert_eq!(score_tracklist(&list, &constraints, &m), 0);
}

#[test]
fn on_same_side_follows_the_packing() {
    let m = medium(2, 5);
    let list = tracklist(&[("A", 3), ("C", 2), ("B", 4)]);
    assert_eq!(score_tracklist(&list, &vec![on_same_side("A", "C", 9)], &m), 9);
    assert_eq!(score_tracklist(&list, &vec![on_same_side("C", "A", 9)], &m), 9);
    assert_eq!(score_tracklist(&list, &vec![on_same_side("A", "B", 9)], &m), 0);
    assert_eq!(score_tracklist(&list, &vec![on_same_side("C", "B", 9)], &m), 0);
}

#[test]
fn on_same_side_is_unmet_when_the_ordering_does_not_fit() {
    let m = medium(2, 5);
    let list = tracklist(&[("A", 3), ("C", 2), ("B", 4), ("D", 4)]);
    assert!(!m.fits(&list));
    assert_eq!(score_tracklist(&list, &vec![on_same_side("A", "C", 9)], &m), 0);
    assert_eq!(score_tracklist(&list, &vec![adjacent("A", "C", 9)], &m), 9);
}

#[test]
fn score_is_a_sum_of_weights() {
    let m = medium(2, 10);
    let list = tracklist(&[("A", 3), ("B", 4), ("C", 2)]);
    let constraints = vec![
        at_position("A", 0, 1),
        adjacent("B", "C", 20),
        on_same_side("A", "B", 300),
        at_position("B", 0, 4000),
        adjacent("A", "C", 50000),
    ];
    assert_eq!(score_tracklist(&list, &constraints, &m), 321);
    assert_eq!(score_tracklist(&list, &Vec::new(), &m), 0);
}

#[test]
fn score_does_not_overflow() {
    let m = medium(2, 10);
    let list = tracklist(&[("A", 3), ("B", 4)]);
    let constraints = vec![
        at_position("A", 0, usize::MAX),
        adjacent("A", "B", usize::MAX),
        on_same_side("A", "B", usize::MAX),
    ];
    assert_eq!(score_tracklist(&list, &constraints, &m), 3 * (usize::MAX as u128));
}

#[test]
fn score_with_a_given_packing() {
    let m = medium(2, 5);
    let list = tracklist(&[("A", 3), ("C", 2), ("B", 4)]);
    let packing = allocate_sides(&list, &m);
    let constraints = vec![on_same_side("A", "C", 9), adjacent("C", "B", 2)];
    assert_eq!(score_allocation(&list, &packing, &constraints), 11);
    assert_eq!(
        score_allocation(&list, &packing, &constraints),
        score_tracklist(&list, &constraints, &m)
    );
}

#[test]
fn added_constraint_adds_its_weight_or_nothing() {
    let m = medium(2, 5);
    let tracks = [("A", 3u64), ("B", 4), ("C", 2)];
    let base = vec![adjacent("A", "B", 10), at_position("C", 2, 3)];
    let added = on_same_side("A", "C", 5);
    let orders: Vec<Vec<usize>> =
        vec![vec![0, 1, 2], vec![0, 2, 1], vec![1, 0, 2], vec![1, 2, 0], vec![2, 0, 1], vec![2, 1, 0]];
    let mut grew = 0;
    for order in orders {
        let list = Tracklist(order.iter().map(|&i| track(tracks[i].0, tracks[i].1)).collect());
        let before = score_tracklist(&list, &base, &m);
        let alone = score_tracklist(&list, &vec![on_same_side("A", "C", 5)], &m);
        assert!(alone == 0 || alone == 5);
        for at in 0..=base.len() {
            let mut longer: Vec<Constraint> = Vec::new();
            longer.extend(base.iter().take(at).cloned());
            longer.push(added.clone());
            longer.extend(base.iter().skip(at).cloned());
            let after = score_tracklist(&list, &longer, &m);
            assert!(after >= before);
            assert_eq!(after, before + alone);
        }
        if alone == 5 {
            grew += 1;
        }
    }
    assert_eq!(grew, 4);
}

#[test]
fn count_zero_gives_no_proposal() {
    let m = medium(2, 5);
    let constraints = vec![adjacent("A", "B", 10)];
    assert!(propose(&Vec::new(), &constraints, &m, 0, None).is_empty());
    let tracks = vec![track("A", 3), track("B", 4), track("C", 2)];
    assert!(propose(&tracks, &constraints, &m, 0, None).is_empty());
    assert!(propose(&tracks, &constraints, &m, 0, Some(0)).is_empty());
    let many: Vec<Track> = (0..30).map(|i| track(&format!("T{}", i), 1)).collect();
    assert!(propose(&many, &constraints, &m, 0, None).is_empty());
}

#[test]
fn no_tracks_give_the_empty_ordering() {
    let m = medium(2, 5);
    let constraints = vec![adjacent("A", "B", 10), at_position("A", 0, 1), on_same_side("A", "B", 2)];
    let proposals = propose(&Vec::new(), &constraints, &m, 3, None);
    assert_eq!(proposals.len(), 1);
    assert_eq!(proposals[0].score, 0);
    assert!(proposals[0].tracklist.0.is_empty());
    assert!(proposals[0].sides.is_empty());
    assert_eq!(propose(&Vec::new(), &constraints, &m, 3, Some(0)).len(), 1);
    assert!(propose(&Vec::new(), &constraints, &m, 3, Some(1)).is_empty());
}

#[test]
fn threshold_drops_lower_scores() {
    let tracks = vec![track("A", 3), track("B", 4), track("C", 2)];
    let m = medium(2, 5);
    let constraints = vec![adjacent("A", "B", 10)];
    let kept = propose(&tracks, &constraints, &m, 10, Some(10));
    assert_eq!(
        summary(&kept),
        vec![(10, names(&["B", "A", "C"])), (10, names(&["C", "A", "B"]))]
    );
    let all = propose(&tracks, &constraints, &m, 10, Some(0));
    assert_eq!(all.len(), 4);
    assert!(propose(&tracks, &constraints, &m, 10, Some(11)).is_empty());
    for min in [0u128, 1, 5, 10, 11] {
        for p in propose(&tracks, &constraints, &m, 3, Some(min)) {
            assert!(p.score >= min);
        }
    }
}

#[test]
fn count_cuts_the_ranking() {
    let tracks = vec![track("A", 3), track("B", 4), track("C", 2)];
    let m = medium(2, 5);
    let constraints = vec![adjacent("A", "B", 10)];
    let all = summary(&propose(&tracks, &constraints, &m, 10, None));
    for count in 0..6 {
        let some = summary(&propose(&tracks, &constraints, &m, count, None));
        let expected: Vec<(u128, Vec<String>)> = all.iter().take(count).cloned().collect();
        assert_eq!(some, expected);
    }
}

#[test]
fn equal_scores_come_in_the_order_of_enumeration() {
    let tracks = vec![track("A", 1), track("B", 1), track("C", 1)];
    let m = medium(1, 10);
    let proposals = propose(&tracks, &Vec::new(), &m, 10, None);
    assert_eq!(
        summary(&proposals),
        vec![
            (0, names(&["A", "B", "C"])),
            (0, names(&["A", "C", "B"])),
            (0, names(&["B", "A", "C"])),
            (0, names(&["B", "C", "A"])),
            (0, names(&["C", "A", "B"])),
            (0, names(&["C", "B", "A"])),
        ]
    );
    let constraints = vec![at_position("C", 0, 2), at_position("B", 1, 1)];
    let ranked = propose(&tracks, &constraints, &m, 10, None);
    assert_eq!(
        summary(&ranked),
        vec![
            (3, names(&["C", "B", "A"])),
            (2, names(&["C", "A", "B"])),
            (1, names(&["A", "B", "C"])),
            (0, names(&["A", "C", "B"])),
            (0, names(&["B", "A", "C"])),
            (0, names(&["B", "C", "A"])),
        ]
    );
}

#[test]
fn selection_repeats() {
    let tracks = vec![track("A", 3), track("B", 4), track("C", 2), track("D", 1)];
    let m = medium(2, 6);
    let constraints = vec![adjacent("A", "B", 10), on_same_side("C", "D", 4), at_position("D", 0, 1)];
    let first = propose(&tracks, &constraints, &m, 7, Some(1));
    let second = propose(&tracks, &constraints, &m, 7, Some(1));
    assert_eq!(summary(&first), summary(&second));
    let first_sides: Vec<Vec<Vec<String>>> = first.iter().map(|p| side_titles(&p.sides)).collect();
    let second_sides: Vec<Vec<Vec<String>>> = second.iter().map(|p| side_titles(&p.sides)).collect();
    assert_eq!(first_sides, second_sides);
    assert!(!first.is_empty());
}

#[test]
fn proposals_fit_and_fall_in_score() {
    let tracks = vec![track("A", 3), track("B", 4), track("C", 2), track("D", 1)];
    let m = medium(2, 6);
    let constraints = vec![adjacent("A", "B", 10), on_same_side("C", "D", 4), at_position("D", 0, 1)];
    let proposals = propose(&tracks, &constraints, &m, 24, None);
    assert!(!proposals.is_empty());
    for pair in proposals.windows(2) {
        assert!(pair[0].score >= pair[1].score);
    }
    for p in &proposals {
        assert!(m.fits(&p.tracklist));
        assert_eq!(p.score, score_tracklist(&p.tracklist, &constraints, &m));
        assert_eq!(side_titles(&p.sides), side_titles(&split_tracklist_by_side(&p.tracklist, &m)));
        let mut sorted = titles(&p.tracklist.0);
        sorted.sort();
        assert_eq!(sorted, names(&["A", "B", "C", "D"]));
    }
}

#[test]
fn nothing_fits_gives_no_proposal() {
    let tracks = vec![track("A", 3), track("Long", 9)];
    let m = medium(4, 5);
    assert!(propose(&tracks, &Vec::new(), &m, 5, None).is_empty());
}

#[test]
fn tracks_are_made_with_a_duration() {
    let made = Track::new("A".to_string(), 1).unwrap();
    assert_eq!(made.title, "A");
    assert_eq!(made.duration, 1);
    assert_eq!(Track::new("A".to_string(), 0).err(), Some(ConfigError::ZeroDuration));
}

#[test]
fn media_are_made_with_sides_and_capacity() {
    let made = Medium::new("Vinyl".to_string(), 2, 5).unwrap();
    assert_eq!(made.name, "Vinyl");
    assert_eq!(made.sides, 2);
    assert_eq!(made.max_duration_per_side, 5);
    assert_eq!(Medium::new("Vinyl".to_string(), 0, 5).err(), Some(ConfigError::ZeroSides));
    assert_eq!(Medium::new("Vinyl".to_string(), 2, 0).err(), Some(ConfigError::ZeroCapacity));
    assert_eq!(Medium::new("Vinyl".to_string(), 0, 0).err(), Some(ConfigError::ZeroSides));
}

#[test]
fn requests_are_checked_medium_first() {
    let good = vec![track("A", 1), track("B", 2)];
    let bad = vec![track("A", 1), track("B", 0)];
    assert_eq!(validate_request(&good, &medium(2, 5)), Ok(()));
    assert_eq!(validate_request(&Vec::new(), &medium(2, 5)), Ok(()));
    assert_eq!(validate_request(&bad, &medium(2, 5)), Err(ConfigError::ZeroDuration));
    assert_eq!(validate_request(&bad, &medium(0, 5)), Err(ConfigError::ZeroSides));
    assert_eq!(validate_request(&bad, &medium(2, 0)), Err(ConfigError::ZeroCapacity));
    assert_eq!(validate_request(&good, &medium(0, 0)), Err(ConfigError::ZeroSides));
}

#[test]
fn faulty_requests_are_reported_before_enumeration() {
    let constraints = vec![adjacent("A", "B", 10)];
    let good = vec![track("A", 3), track("B", 4), track("C", 2)];
    let proposals = try_propose(&good, &constraints, &medium(2, 5), 10, None).unwrap();
    assert_eq!(summary(&proposals), summary(&propose(&good, &constraints, &medium(2, 5), 10, None)));
    assert_eq!(proposals.len(), 4);
    let many: Vec<Track> = (0..40).map(|i| track(&format!("T{}", i), 1)).collect();
    assert_eq!(
        try_propose(&many, &constraints, &medium(0, 5), 10, None).err(),
        Some(ConfigError::ZeroSides)
    );
    assert_eq!(
        try_propose(&many, &constraints, &medium(2, 0), 0, None).err(),
        Some(ConfigError::ZeroCapacity)
    );
    let mut silent = many;
    silent[39].duration = 0;
    assert_eq!(
        try_propose(&silent, &constraints, &medium(2, 5), 10, None).err(),
        Some(ConfigError::ZeroDuration)
    );
    assert!(try_propose(&good, &constraints, &medium(2, 5), 0, None).unwrap().is_empty());
}

#[test]
fn one_ordering_is_packed_and_scored() {
    let m = medium(2, 5);
    let constraints = vec![adjacent("A", "C", 3), on_same_side("A", "C", 4), at_position("B", 0, 8)];
    let kept = evaluate(tracklist(&[("A", 3), ("C", 2), ("B", 4)]), &constraints, &m).unwrap();
    assert_eq!(kept.score, 7);
    assert_eq!(titles(&kept.tracklist.0), names(&["A", "C", "B"]));
    assert_eq!(side_titles(&kept.sides), vec![names(&["A", "C"]), names(&["B"])]);
    assert!(evaluate(tracklist(&[("A", 3), ("B", 4), ("C", 2)]), &constraints, &m).is_none());
    let empty = evaluate(Tracklist(Vec::new()), &constraints, &m).unwrap();
    assert_eq!(empty.score, 0);
    assert!(empty.sides.is_empty());
}

fn scored(title: &str, score: u128) -> Proposal {
    Proposal { score, tracklist: tracklist(&[(title, 1)]), sides: vec![vec![track(title, 1)]] }
}

#[test]
fn proposals_enter_behind_equal_scores() {
    let mut chosen: Vec<Proposal> = Vec::new();
    for (title, score) in [("a", 5), ("b", 7), ("c", 5), ("d", 9), ("e", 7), ("f", 1)] {
        enter_proposal(&mut chosen, scored(title, score), 10);
    }
    assert_eq!(
        summary(&chosen),
        vec![
            (9, names(&["d"])),
            (7, names(&["b"])),
            (7, names(&["e"])),
            (5, names(&["a"])),
            (5, names(&["c"])),
            (1, names(&["f"])),
        ]
    );
}

#[test]
fn entering_keeps_the_first_few() {
    let mut chosen: Vec<Proposal> = Vec::new();
    for (title, score) in [("a", 5), ("b", 7), ("c", 5), ("d", 9), ("e", 7), ("f", 1)] {
        enter_proposal(&mut chosen, scored(title, score), 2);
        assert!(chosen.len() <= 2);
    }
    assert_eq!(summary(&chosen), vec![(9, names(&["d"])), (7, names(&["b"]))]);
    enter_proposal(&mut chosen, scored("g", 9), 2);
    assert_eq!(summary(&chosen), vec![(9, names(&["d"])), (9, names(&["g"]))]);
    enter_proposal(&mut chosen, scored("h", 9), 2);
    assert_eq!(summary(&chosen), vec![(9, names(&["d"])), (9, names(&["g"]))]);
    enter_proposal(&mut chosen, scored("i", 10), 1);
    assert_eq!(summary(&chosen), vec![(10, names(&["i"]))]);
    enter_proposal(&mut chosen, scored("j", 11), 0);
    assert!(chosen.is_empty());
    let mut long = vec![scored("x", 3), scored("y", 2), scored("z", 1)];
    enter_proposal(&mut long, scored("w", 0), 2);
    assert_eq!(summary(&long), vec![(3, names(&["x"])), (2, names(&["y"]))]);
}
