use albumseq_cli::commands::{
    constraint_kind_for, handle_add_constraint, handle_add_medium, handle_add_tracklist,
    handle_propose, handle_remove_constraint, handle_show, parse_constraint_kind,
    select_sections, show_sections, shown_sections, store_constraint, KindError, ProposeError,
    Sections,
};
use albumseq_cli::context::{
    store_tracks, ProgramContext, SerConstraint, SerConstraintKind, SerMedium, SerTrack,
    SerTracklist, Stored,
};
use albumseq_cli::model::{Constraint, ConstraintKind, Medium, Track, Tracklist};

const MINUTE: u64 = 60_000;

fn track(title: &str, minutes: u64) -> Track {
    Track { title: title.to_string(), duration: minutes * MINUTE }
}

fn words(list: &[&str]) -> Vec<String> {
    list.iter().map(|s| s.to_string()).collect()
}

fn stored_titles(list: &SerTracklist) -> Vec<String> {
    list.0.iter().map(|t| t.title.clone()).collect()
}

fn adjacent(a: &str, b: &str) -> ConstraintKind {
    ConstraintKind::Adjacent(a.to_string(), b.to_string())
}

fn kind_text(kind: &ConstraintKind) -> String {
    match kind {
        ConstraintKind::AtPosition(t, p) => format!("at {} {}", t, p),
        ConstraintKind::Adjacent(a, b) => format!("adj {} {}", a, b),
        ConstraintKind::OnSameSide(a, b) => format!("side {} {}", a, b),
    }
}

fn read(kind: &str, args: &[&str]) -> Result<String, KindError> {
    parse_constraint_kind(kind, &words(args)).map(|k| kind_text(&k))
}

#[test]
fn new_context_is_empty() {
    let ctx = ProgramContext::new();
    assert!(ctx.tracklists.is_empty());
    assert!(ctx.mediums.is_empty());
    assert!(ctx.constraints.is_empty());
}

#[test]
fn tracklist_is_added_then_replaced_by_name() {
    let mut ctx = ProgramContext::new();
    assert_eq!(ctx.add_or_replace_tracklist("Album".to_string(), vec![track("A", 1)]), Stored::Added);
    assert_eq!(ctx.add_or_replace_tracklist("Other".to_string(), vec![track("B", 1)]), Stored::Added);
    assert_eq!(
        ctx.add_or_replace_tracklist("ALBUM".to_string(), vec![track("C", 1), track("D", 2)]),
        Stored::Replaced
    );
    assert_eq!(ctx.tracklists.len(), 2);
    assert_eq!(ctx.tracklists[0].name, "ALBUM");
    assert_eq!(stored_titles(&ctx.tracklists[0].tracks), words(&["C", "D"]));
    assert_eq!(ctx.tracklists[0].tracks.0[1].duration, 2 * MINUTE);
    assert_eq!(ctx.tracklists[1].name, "Other");
    assert_eq!(ctx.find_tracklist("album"), Some(0));
    assert_eq!(ctx.find_tracklist("OTHER"), Some(1));
    assert_eq!(ctx.find_tracklist("Albu"), None);
    assert_eq!(ctx.find_tracklist(""), None);
}

#[test]
fn only_the_first_tracklist_of_a_name_is_replaced() {
    let mut ctx = ProgramContext::new();
    ctx.add_or_replace_tracklist("x".to_string(), vec![track("A", 1)]);
    ctx.add_or_replace_tracklist("y".to_string(), vec![track("B", 1)]);
    ctx.tracklists[1].name = "X".to_string();
    assert_eq!(ctx.add_or_replace_tracklist("x".to_string(), vec![track("C", 1)]), Stored::Replaced);
    assert_eq!(stored_titles(&ctx.tracklists[0].tracks), words(&["C"]));
    assert_eq!(stored_titles(&ctx.tracklists[1].tracks), words(&["B"]));
}

#[test]
fn names_differ_beyond_ascii_case() {
    let mut ctx = ProgramContext::new();
    ctx.add_or_replace_medium("Café".to_string(), 2, 5);
    assert_eq!(ctx.find_medium("CAFé"), Some(0));
    assert_eq!(ctx.find_medium("CAFÉ"), None);
    assert_eq!(ctx.find_medium("Cafe"), None);
    assert_eq!(ctx.add_or_replace_medium("CAFÉ".to_string(), 1, 1), Stored::Added);
    assert_eq!(ctx.mediums.len(), 2);
}

#[test]
fn medium_is_added_then_replaced_by_name() {
    let mut ctx = ProgramContext::new();
    assert_eq!(ctx.add_or_replace_medium("Vinyl".to_string(), 2, 22 * MINUTE), Stored::Added);
    assert_eq!(ctx.add_or_replace_medium("Tape".to_string(), 2, 45 * MINUTE), Stored::Added);
    assert_eq!(ctx.add_or_replace_medium("vinyl".to_string(), 4, 20 * MINUTE), Stored::Replaced);
    assert_eq!(ctx.mediums.len(), 2);
    assert_eq!(ctx.mediums[0].name, "vinyl");
    assert_eq!(ctx.mediums[0].sides, 4);
    assert_eq!(ctx.mediums[0].max_duration_per_side, 20 * MINUTE);
    assert_eq!(ctx.mediums[1].name, "Tape");
    assert!(ctx.tracklists.is_empty());
    assert!(ctx.constraints.is_empty());
}

#[test]
fn constraint_is_added_then_replaced_by_kind() {
    let mut ctx = ProgramContext::new();
    let first = Constraint { kind: adjacent("A", "B"), weight: 1 };
    let second = Constraint { kind: adjacent("B", "A"), weight: 2 };
    let third = Constraint { kind: adjacent("A", "B"), weight: 3 };
    assert_eq!(ctx.add_or_replace_constraint(first), Stored::Added);
    assert_eq!(ctx.add_or_replace_constraint(second), Stored::Added);
    assert_eq!(ctx.add_or_replace_constraint(third), Stored::Replaced);
    assert_eq!(ctx.constraints.len(), 2);
    assert_eq!(ctx.constraints[0].weight, 3);
    assert_eq!(ctx.constraints[1].weight, 2);
    let same_titles = Constraint {
        kind: ConstraintKind::OnSameSide("A".to_string(), "B".to_string()),
        weight: 4,
    };
    assert_eq!(ctx.add_or_replace_constraint(same_titles), Stored::Added);
    let other_position =
        Constraint { kind: ConstraintKind::AtPosition("A".to_string(), 1), weight: 5 };
    let position = Constraint { kind: ConstraintKind::AtPosition("A".to_string(), 0), weight: 6 };
    assert_eq!(ctx.add_or_replace_constraint(other_position), Stored::Added);
    assert_eq!(ctx.add_or_replace_constraint(position), Stored::Added);
    assert_eq!(ctx.constraints.len(), 5);
}

#[test]
fn kinds_are_equal_by_variant_and_fields() {
    let a = SerConstraintKind::Adjacent("A".to_string(), "B".to_string());
    assert!(a == SerConstraintKind::Adjacent("A".to_string(), "B".to_string()));
    assert!(a != SerConstraintKind::Adjacent("B".to_string(), "A".to_string()));
    assert!(a != SerConstraintKind::OnSameSide("A".to_string(), "B".to_string()));
    assert!(a != SerConstraintKind::Adjacent("a".to_string(), "B".to_string()));
    let p = SerConstraintKind::AtPosition("A".to_string(), 1);
    assert!(p == SerConstraintKind::AtPosition("A".to_string(), 1));
    assert!(p != SerConstraintKind::AtPosition("A".to_string(), 2));
    assert!(p != SerConstraintKind::AtPosition("B".to_string(), 1));
    let s = SerConstraintKind::OnSameSide("A".to_string(), "B".to_string());
    assert!(s == SerConstraintKind::OnSameSide("A".to_string(), "B".to_string()));
    assert!(s != SerConstraintKind::OnSameSide("A".to_string(), "C".to_string()));
    assert_eq!(s.clone(), s);
}

#[test]
fn constraint_is_removed_by_index() {
    let mut ctx = ProgramContext::new();
    ctx.add_or_replace_constraint(Constraint { kind: adjacent("A", "B"), weight: 1 });
    ctx.add_or_replace_constraint(Constraint { kind: adjacent("C", "D"), weight: 2 });
    ctx.add_or_replace_constraint(Constraint { kind: adjacent("E", "F"), weight: 3 });
    assert!(ctx.remove_constraint(3).is_none());
    assert!(handle_remove_constraint(&mut ctx, &usize::MAX).is_none());
    assert_eq!(ctx.constraints.len(), 3);
    let removed = handle_remove_constraint(&mut ctx, &1).unwrap();
    assert_eq!(removed.weight, 2);
    assert_eq!(removed.kind, SerConstraintKind::Adjacent("C".to_string(), "D".to_string()));
    let left: Vec<usize> = ctx.constraints.iter().map(|c| c.weight).collect();
    assert_eq!(left, vec![1, 3]);
    assert_eq!(ctx.remove_constraint(0).unwrap().weight, 1);
    assert_eq!(ctx.remove_constraint(0).unwrap().weight, 3);
    assert!(ctx.remove_constraint(0).is_none());
}

#[test]
fn tracks_convert_both_ways() {
    let t = track("A", 3);
    let s = SerTrack::from(&t);
    assert_eq!(s.title, "A");
    assert_eq!(s.duration, 3 * MINUTE);
    let back = Track::from(&s);
    assert_eq!(back.title, "A");
    assert_eq!(back.duration, 3 * MINUTE);
    let copy = s.clone();
    assert_eq!(copy.title, "A");
    assert_eq!(copy.duration, 3 * MINUTE);
}

#[test]
fn tracklists_convert_both_ways() {
    let list = Tracklist(vec![track("A", 3), track("B", 4)]);
    let stored = SerTracklist::from(&list);
    assert_eq!(stored_titles(&stored), words(&["A", "B"]));
    assert_eq!(stored.0[1].duration, 4 * MINUTE);
    let back = Tracklist::from(&stored);
    assert_eq!(back.0.len(), 2);
    assert_eq!(back.0[0].title, "A");
    assert_eq!(back.0[1].title, "B");
    assert_eq!(back.0[1].duration, 4 * MINUTE);
    assert_eq!(stored_titles(&store_tracks(&list.0)), words(&["A", "B"]));
    assert_eq!(stored_titles(&stored.clone()), words(&["A", "B"]));
    assert!(SerTracklist::from(&Tracklist(Vec::new())).0.is_empty());
}

#[test]
fn medium_converts_to_the_engines_form() {
    let stored = SerMedium { name: "Vinyl".to_string(), sides: 2, max_duration_per_side: 22 * MINUTE };
    let m: Medium = stored.to_album_medium();
    assert_eq!(m.name, "Vinyl");
    assert_eq!(m.sides, 2);
    assert_eq!(m.max_duration_per_side, 22 * MINUTE);
}

#[test]
fn constraints_convert_both_ways() {
    for kind in [
        ConstraintKind::AtPosition("A".to_string(), 4),
        ConstraintKind::Adjacent("A".to_string(), "B".to_string()),
        ConstraintKind::OnSameSide("A".to_string(), "B".to_string()),
    ] {
        let text = kind_text(&kind);
        let c = Constraint { kind, weight: 9 };
        let stored = SerConstraint::from(&c);
        assert_eq!(stored.weight, 9);
        let back = Constraint::from(stored);
        assert_eq!(back.weight, 9);
        assert_eq!(kind_text(&back.kind), text);
    }
    let mut ctx = ProgramContext::new();
    ctx.add_or_replace_constraint(Constraint { kind: adjacent("A", "B"), weight: 1 });
    ctx.add_or_replace_constraint(Constraint {
        kind: ConstraintKind::AtPosition("C".to_string(), 2),
        weight: 2,
    });
    let taken = ctx.album_constraints();
    let texts: Vec<(String, usize)> = taken.iter().map(|c| (kind_text(&c.kind), c.weight)).collect();
    assert_eq!(texts, vec![("adj A B".to_string(), 1), ("at C 2".to_string(), 2)]);
}

#[test]
fn kind_words_are_read_in_any_case() {
    assert_eq!(read("atpos", &["Intro", "0"]), Ok("at Intro 0".to_string()));
    assert_eq!(read("AtPos", &["Intro", "12"]), Ok("at Intro 12".to_string()));
    assert_eq!(read("ADJACENT", &["A", "B"]), Ok("adj A B".to_string()));
    assert_eq!(read("adjacent", &["A", "B"]), Ok("adj A B".to_string()));
    assert_eq!(read("OnSameSide", &["A", "B"]), Ok("side A B".to_string()));
    assert_eq!(read("onsameside", &["A", "A"]), Ok("side A A".to_string()));
}

#[test]
fn lowered_kind_words_are_read_as_they_are() {
    let args = words(&["A", "B"]);
    assert_eq!(constraint_kind_for("adjacent", &args).map(|k| kind_text(&k)), Ok("adj A B".to_string()));
    assert_eq!(constraint_kind_for("Adjacent", &args).err(), Some(KindError::UnknownKind));
    assert_eq!(constraint_kind_for("ATPOS", &args).err(), Some(KindError::UnknownKind));
}

#[test]
fn unknown_kind_words_are_refused() {
    assert_eq!(read("", &["A", "B"]), Err(KindError::UnknownKind));
    assert_eq!(read("at", &["A", "0"]), Err(KindError::UnknownKind));
    assert_eq!(read("atposition", &["A", "0"]), Err(KindError::UnknownKind));
    assert_eq!(read("adjacent ", &["A", "B"]), Err(KindError::UnknownKind));
    assert_eq!(read("near", &[]), Err(KindError::UnknownKind));
}

#[test]
fn kinds_need_two_arguments() {
    assert_eq!(read("atpos", &[]), Err(KindError::AtPositionArguments));
    assert_eq!(read("atpos", &["A"]), Err(KindError::AtPositionArguments));
    assert_eq!(read("atpos", &["A", "0", "1"]), Err(KindError::AtPositionArguments));
    assert_eq!(read("atpos", &["A", "x", "1"]), Err(KindError::AtPositionArguments));
    assert_eq!(read("adjacent", &["A"]), Err(KindError::AdjacentArguments));
    assert_eq!(read("adjacent", &["A", "B", "C"]), Err(KindError::AdjacentArguments));
    assert_eq!(read("onsameside", &[]), Err(KindError::OnSameSideArguments));
    assert_eq!(read("onsameside", &["A", "B", "C"]), Err(KindError::OnSameSideArguments));
}

#[test]
fn positions_are_unsigned_numbers() {
    assert_eq!(read("atpos", &["A", "+3"]), Ok("at A 3".to_string()));
    assert_eq!(read("atpos", &["A", "007"]), Ok("at A 7".to_string()));
    assert_eq!(
        read("atpos", &["A", &usize::MAX.to_string()]),
        Ok(format!("at A {}", usize::MAX))
    );
    for bad in ["", "+", "-1", "1.5", " 1", "1 ", "one", "1e3", "0x10", "٣", "99999999999999999999999999"] {
        assert_eq!(read("atpos", &["A", bad]), Err(KindError::InvalidPosition));
    }
}

#[test]
fn constraint_is_read_and_stored() {
    let mut ctx = ProgramContext::new();
    let added = handle_add_constraint(&mut ctx, &"Adjacent".to_string(), &words(&["A", "B"]), 2);
    assert_eq!(added, Ok(Stored::Added));
    let again = handle_add_constraint(&mut ctx, &"adjacent".to_string(), &words(&["A", "B"]), 5);
    assert_eq!(again, Ok(Stored::Replaced));
    assert_eq!(ctx.constraints.len(), 1);
    assert_eq!(ctx.constraints[0].weight, 5);
    assert_eq!(ctx.constraints[0].kind, SerConstraintKind::Adjacent("A".to_string(), "B".to_string()));
    let refused = handle_add_constraint(&mut ctx, &"atpos".to_string(), &words(&["A", "x"]), 1);
    assert_eq!(refused, Err(KindError::InvalidPosition));
    let unknown = handle_add_constraint(&mut ctx, &"near".to_string(), &words(&["A", "B"]), 1);
    assert_eq!(unknown, Err(KindError::UnknownKind));
    assert_eq!(ctx.constraints.len(), 1);
    let placed = handle_add_constraint(&mut ctx, &"ATPOS".to_string(), &words(&["A", "0"]), 50);
    assert_eq!(placed, Ok(Stored::Added));
    assert_eq!(ctx.constraints[1].kind, SerConstraintKind::AtPosition("A".to_string(), 0));
    assert_eq!(ctx.constraints[1].weight, 50);
}

#[test]
fn a_kind_that_was_read_is_stored() {
    let mut ctx = ProgramContext::new();
    assert_eq!(store_constraint(&mut ctx, Ok(adjacent("A", "B")), 3), Ok(Stored::Added));
    assert_eq!(store_constraint(&mut ctx, Ok(adjacent("A", "B")), 4), Ok(Stored::Replaced));
    assert_eq!(
        store_constraint(&mut ctx, Err(KindError::AdjacentArguments), 5),
        Err(KindError::AdjacentArguments)
    );
    assert_eq!(ctx.constraints.len(), 1);
    assert_eq!(ctx.constraints[0].weight, 4);
}

#[test]
fn handlers_store_tracklists_and_media() {
    let mut ctx = ProgramContext::new();
    let name = "Album".to_string();
    assert_eq!(handle_add_tracklist(&mut ctx, &name, vec![track("A", 1)]), Stored::Added);
    assert_eq!(handle_add_tracklist(&mut ctx, &"album".to_string(), vec![track("B", 1)]), Stored::Replaced);
    assert_eq!(handle_add_medium(&mut ctx, &"Vinyl".to_string(), 2, 5 * MINUTE), Stored::Added);
    assert_eq!(handle_add_medium(&mut ctx, &"VINYL".to_string(), 3, 6 * MINUTE), Stored::Replaced);
    assert_eq!(ctx.tracklists.len(), 1);
    assert_eq!(ctx.tracklists[0].name, "album");
    assert_eq!(ctx.mediums.len(), 1);
    assert_eq!(ctx.mediums[0].sides, 3);
}

#[test]
fn filter_selects_the_sections() {
    let all = Sections { tracklists: true, media: true, constraints: true };
    let none = Sections { tracklists: false, media: false, constraints: false };
    assert_eq!(shown_sections(&None), all);
    assert_eq!(shown_sections(&Some("all".to_string())), all);
    assert_eq!(shown_sections(&Some("ALL".to_string())), all);
    assert_eq!(
        shown_sections(&Some("Tracklists".to_string())),
        Sections { tracklists: true, ..none }
    );
    assert_eq!(shown_sections(&Some("media".to_string())), Sections { media: true, ..none });
    assert_eq!(
        shown_sections(&Some("CONSTRAINTS".to_string())),
        Sections { constraints: true, ..none }
    );
    assert_eq!(shown_sections(&Some("mediums".to_string())), none);
    assert_eq!(shown_sections(&Some("".to_string())), none);
    assert_eq!(select_sections("all"), all);
    assert_eq!(select_sections("All"), none);
    assert_eq!(select_sections("media"), Sections { media: true, ..none });
}

fn filled() -> ProgramContext {
    let mut ctx = ProgramContext::new();
    ctx.add_or_replace_tracklist(
        "My Album".to_string(),
        vec![track("A", 3), track("B", 4), track("C", 2)],
    );
    ctx.add_or_replace_medium("Vinyl".to_string(), 2, 5 * MINUTE);
    ctx.add_or_replace_constraint(Constraint { kind: adjacent("A", "B"), weight: 10 });
    ctx
}

#[test]
fn proposals_come_from_the_stored_context() {
    let ctx = filled();
    let proposals = handle_propose(&ctx, "my album", "VINYL", &10, &None).unwrap();
    let found: Vec<(u128, String)> = proposals
        .iter()
        .map(|p| (p.score, p.tracklist.0.iter().map(|t| t.title.as_str()).collect()))
        .collect();
    assert_eq!(
        found,
        vec![
            (10, "BAC".to_string()),
            (10, "CAB".to_string()),
            (0, "ACB".to_string()),
            (0, "BCA".to_string()),
        ]
    );
    let best = handle_propose(&ctx, "My Album", "Vinyl", &1, &Some(5)).unwrap();
    assert_eq!(best.len(), 1);
    assert_eq!(best[0].score, 10);
    assert!(handle_propose(&ctx, "My Album", "Vinyl", &5, &Some(11)).unwrap().is_empty());
    assert!(handle_propose(&ctx, "My Album", "Vinyl", &0, &None).unwrap().is_empty());
}

#[test]
fn proposals_need_a_stored_tracklist_and_medium() {
    let ctx = filled();
    assert_eq!(
        handle_propose(&ctx, "Other", "Vinyl", &10, &None).err(),
        Some(ProposeError::TracklistNotFound)
    );
    assert_eq!(
        handle_propose(&ctx, "My Album", "Tape", &10, &None).err(),
        Some(ProposeError::MediumNotFound)
    );
    assert_eq!(
        handle_propose(&ctx, "Other", "Tape", &10, &None).err(),
        Some(ProposeError::TracklistNotFound)
    );
    assert_eq!(
        handle_propose(&ProgramContext::new(), "", "", &0, &None).err(),
        Some(ProposeError::TracklistNotFound)
    );
}

#[test]
fn filter_words_are_lowered_by_the_rules_of_unicode() {
    let tracklists = Sections { tracklists: true, media: false, constraints: false };
    assert_eq!(shown_sections(&Some("TRAC\u{212A}LISTS".to_string())), tracklists);
    assert_eq!(read("ADJACENT", &["A", "B"]), Ok("adj A B".to_string()));
    assert_eq!(read("\u{0410}DJACENT", &["A", "B"]), Err(KindError::UnknownKind));
}

#[test]
fn shown_parts_are_copies_of_the_context() {
    let ctx = filled();
    let all = handle_show(&ctx, &None);
    let lists = all.tracklists.unwrap();
    assert_eq!(lists.len(), 1);
    assert_eq!(lists[0].name, "My Album");
    assert_eq!(stored_titles(&lists[0].tracks), words(&["A", "B", "C"]));
    assert_eq!(lists[0].tracks.0[1].duration, 4 * MINUTE);
    let media = all.mediums.unwrap();
    assert_eq!(media.len(), 1);
    assert_eq!(media[0].name, "Vinyl");
    assert_eq!(media[0].sides, 2);
    assert_eq!(media[0].max_duration_per_side, 5 * MINUTE);
    let constraints = all.constraints.unwrap();
    assert_eq!(constraints.len(), 1);
    assert_eq!(constraints[0].weight, 10);
    assert_eq!(constraints[0].kind, SerConstraintKind::Adjacent("A".to_string(), "B".to_string()));

    let media_only = handle_show(&ctx, &Some("MEDIA".to_string()));
    assert!(media_only.tracklists.is_none());
    assert_eq!(media_only.mediums.unwrap().len(), 1);
    assert!(media_only.constraints.is_none());

    let nothing = handle_show(&ctx, &Some("everything".to_string()));
    assert!(nothing.tracklists.is_none());
    assert!(nothing.mediums.is_none());
    assert!(nothing.constraints.is_none());

    let empty = handle_show(&ProgramContext::new(), &Some("all".to_string()));
    assert_eq!(empty.tracklists.unwrap().len(), 0);
    assert_eq!(empty.mediums.unwrap().len(), 0);
    assert_eq!(empty.constraints.unwrap().len(), 0);

    let picked = show_sections(
        &ctx,
        Sections { tracklists: false, media: false, constraints: true },
    );
    assert!(picked.tracklists.is_none());
    assert!(picked.mediums.is_none());
    assert_eq!(picked.constraints.unwrap().len(), 1);
}
