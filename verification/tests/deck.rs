use pinshot::deck::render::{
    can_render, default_pos, get_deck_summary, get_pin_view, label_slot, make_view, pin_label,
    render, RenderPlan,
};
use pinshot::deck::{
    close_all_pins, close_image, create_pin_internal, deck_step, find_index, pool_size,
    replace_image, set_image_click_through, set_image_collapsed, set_image_opacity,
    set_image_pos, set_image_scale, set_mode, toggle_click_through_all_internal, Deck, Mode,
    PinImagePayload, UNIT_BITS,
};

fn payload(tag: &str, w: u32, h: u32) -> PinImagePayload {
    PinImagePayload {
        data_url: format!("data:image/png;base64,{tag}"),
        width: w,
        height: h,
        fit_w_bits: (w as f64).to_bits(),
        fit_h_bits: (h as f64).to_bits(),
    }
}

fn deck_with(n: usize) -> Deck {
    let mut deck = Deck::new();
    for k in 0..n {
        create_pin_internal(&mut deck, payload(&format!("img{k}"), 10 + k as u32, 20)).unwrap();
    }
    deck
}

fn ids(deck: &Deck) -> Vec<u64> {
    (0..deck.len()).map(|i| deck.image(i).id).collect()
}

#[test]
fn pool_holds_six() {
    assert_eq!(pool_size(), 6);
}

#[test]
fn mode_names() {
    assert_eq!(Mode::All.as_str(), "all");
    assert_eq!(Mode::Single.as_str(), "single");
}

#[test]
fn fresh_deck_is_empty_and_shows_all() {
    let deck = Deck::new();
    assert_eq!(deck.len(), 0);
    assert_eq!(deck.mode(), Mode::All);
    assert_eq!(deck.current(), 0);
    assert_eq!(deck.next_id(), 1);
    let s = get_deck_summary(&deck);
    assert_eq!(s.count, 0);
    assert_eq!(s.mode, "all");
    assert_eq!(s.current, 0);
    assert!(!s.any_click_through);
}

#[test]
fn create_appends_with_increasing_ids_and_becomes_current() {
    let mut deck = Deck::new();
    assert_eq!(create_pin_internal(&mut deck, payload("a", 4, 3)), Ok(1));
    assert_eq!(create_pin_internal(&mut deck, payload("b", 4, 3)), Ok(2));
    assert_eq!(create_pin_internal(&mut deck, payload("c", 4, 3)), Ok(3));
    assert_eq!(ids(&deck), vec![1, 2, 3]);
    assert_eq!(deck.current(), 2);
    assert_eq!(deck.next_id(), 4);
    let img = deck.image(2);
    assert_eq!(img.scale_bits, 1.0f64.to_bits());
    assert_eq!(img.opacity_bits, 1.0f64.to_bits());
    assert!(!img.collapsed && !img.click_through);
    assert_eq!(img.pos, None);
    assert_eq!(img.image.data_url, "data:image/png;base64,c");
    assert_eq!(get_deck_summary(&deck).current, 3);
}

#[test]
fn create_refused_when_pool_is_full() {
    let mut deck = deck_with(6);
    let r = create_pin_internal(&mut deck, payload("x", 1, 1));
    assert_eq!(r, Err("Holding the maximum of 6 images \u{2014} close one first.".to_string()));
    assert_eq!(deck.len(), 6);
    assert_eq!(deck.next_id(), 7);
}

#[test]
fn ids_are_not_reused_after_close() {
    let mut deck = deck_with(2);
    close_image(&mut deck, 2);
    assert_eq!(create_pin_internal(&mut deck, payload("z", 1, 1)), Ok(3));
    assert_eq!(ids(&deck), vec![1, 3]);
}

#[test]
fn find_index_by_id() {
    let mut deck = deck_with(3);
    close_image(&mut deck, 1);
    assert_eq!(find_index(&deck, 2), Some(0));
    assert_eq!(find_index(&deck, 3), Some(1));
    assert_eq!(find_index(&deck, 1), None);
}

#[test]
fn replace_resets_zoom_and_collapse_only() {
    let mut deck = deck_with(2);
    set_image_scale(&mut deck, 1, 2.5f64.to_bits());
    set_image_opacity(&mut deck, 1, 0.5f64.to_bits());
    set_image_collapsed(&mut deck, 1, true);
    set_image_click_through(&mut deck, 1, true);
    set_image_pos(&mut deck, 1, 7, 8);
    assert_eq!(replace_image(&mut deck, 1, payload("new", 30, 40)), Ok(()));
    let img = deck.image(0);
    assert_eq!(img.id, 1);
    assert_eq!(img.image.data_url, "data:image/png;base64,new");
    assert_eq!((img.image.width, img.image.height), (30, 40));
    assert_eq!(img.scale_bits, UNIT_BITS);
    assert!(!img.collapsed);
    assert_eq!(img.opacity_bits, 0.5f64.to_bits());
    assert!(img.click_through);
    assert_eq!(img.pos, Some((7, 8)));
}

#[test]
fn replace_of_unknown_image_is_refused() {
    let mut deck = deck_with(1);
    assert_eq!(
        replace_image(&mut deck, 9, payload("new", 1, 1)),
        Err("That image is no longer pinned.".to_string())
    );
    assert_eq!(deck.image(0).image.data_url, "data:image/png;base64,img0");
}

#[test]
fn setters_touch_only_the_named_image() {
    let mut deck = deck_with(2);
    set_image_scale(&mut deck, 2, 3.0f64.to_bits());
    set_image_opacity(&mut deck, 2, 0.25f64.to_bits());
    set_image_collapsed(&mut deck, 2, true);
    set_image_click_through(&mut deck, 2, true);
    let a = deck.image(0);
    assert_eq!((a.scale_bits, a.opacity_bits, a.collapsed, a.click_through), (UNIT_BITS, UNIT_BITS, false, false));
    let b = deck.image(1);
    assert_eq!(b.scale_bits, 3.0f64.to_bits());
    assert_eq!(b.opacity_bits, 0.25f64.to_bits());
    assert!(b.collapsed && b.click_through);
    set_image_scale(&mut deck, 42, 9.0f64.to_bits());
    assert_eq!(deck.image(0).scale_bits, UNIT_BITS);
    assert_eq!(deck.image(1).scale_bits, 3.0f64.to_bits());
}

#[test]
fn drag_moves_image_in_all_mode_and_viewer_in_single_mode() {
    let mut deck = deck_with(2);
    set_image_pos(&mut deck, 2, 300, 400);
    assert_eq!(deck.image(1).pos, Some((300, 400)));
    assert_eq!(deck.image(0).pos, None);
    set_mode(&mut deck, false);
    set_image_pos(&mut deck, 1, -5, 6);
    assert_eq!(deck.image(0).pos, None);
    let plan = render(&mut deck, Some((0, 0)));
    assert_eq!(plan.shown.len(), 1);
    assert_eq!(plan.shown[0].pos, (-5, 6));
}

#[test]
fn close_keeps_the_current_image_when_another_closes() {
    let mut deck = deck_with(4);
    deck_step(&mut deck, -2); // current: index 1 (id 2)
    assert_eq!(deck.current(), 1);
    close_image(&mut deck, 1);
    assert_eq!(deck.image(deck.current()).id, 2);
    close_image(&mut deck, 4);
    assert_eq!(deck.image(deck.current()).id, 2);
}

#[test]
fn close_of_current_last_image_steps_back() {
    let mut deck = deck_with(3);
    assert_eq!(deck.current(), 2);
    close_image(&mut deck, 3);
    assert_eq!(deck.current(), 1);
    assert_eq!(ids(&deck), vec![1, 2]);
}

#[test]
fn close_of_current_middle_image_keeps_index() {
    let mut deck = deck_with(3);
    deck_step(&mut deck, -1);
    assert_eq!(deck.current(), 1);
    close_image(&mut deck, 2);
    assert_eq!(deck.current(), 1);
    assert_eq!(deck.image(1).id, 3);
}

#[test]
fn close_of_only_image_empties_deck() {
    let mut deck = deck_with(1);
    close_image(&mut deck, 1);
    assert_eq!(deck.len(), 0);
    assert_eq!(deck.current(), 0);
    close_image(&mut deck, 1);
    assert_eq!(deck.len(), 0);
}

#[test]
fn close_all_empties_but_keeps_ids_counting() {
    let mut deck = deck_with(3);
    close_all_pins(&mut deck);
    assert_eq!(deck.len(), 0);
    assert_eq!(deck.current(), 0);
    assert_eq!(deck.next_id(), 4);
    assert_eq!(get_deck_summary(&deck).count, 0);
}

#[test]
fn toggle_all_turns_everything_on_then_off() {
    let mut empty = Deck::new();
    assert!(!toggle_click_through_all_internal(&mut empty));
    let mut deck = deck_with(3);
    assert!(toggle_click_through_all_internal(&mut deck));
    assert!((0..3).all(|i| deck.image(i).click_through));
    assert!(get_deck_summary(&deck).any_click_through);
    assert!(toggle_click_through_all_internal(&mut deck));
    assert!((0..3).all(|i| !deck.image(i).click_through));
    set_image_click_through(&mut deck, 2, true);
    assert!(toggle_click_through_all_internal(&mut deck));
    assert!((0..3).all(|i| !deck.image(i).click_through));
}

#[test]
fn step_wraps_around_both_ways() {
    let mut empty = Deck::new();
    assert_eq!(deck_step(&mut empty, 1), None);
    let mut deck = deck_with(3);
    assert_eq!(deck.current(), 2);
    assert_eq!(deck_step(&mut deck, 1), Some(false));
    assert_eq!(deck.current(), 0);
    assert_eq!(deck_step(&mut deck, -1), Some(false));
    assert_eq!(deck.current(), 2);
    assert_eq!(deck_step(&mut deck, -5), Some(false));
    assert_eq!(deck.current(), 0);
    assert_eq!(deck_step(&mut deck, 7), Some(false));
    assert_eq!(deck.current(), 1);
    set_mode(&mut deck, false);
    assert_eq!(deck_step(&mut deck, 3), Some(true));
    assert_eq!(deck.current(), 1);
    assert_eq!(deck_step(&mut deck, i32::MIN + 1), Some(true));
    assert_eq!(deck.current(), 0);
}

#[test]
fn step_there_and_back_returns() {
    for n in 1..=6 {
        let mut deck = deck_with(n);
        for _ in 0..n {
            let before = deck.current();
            deck_step(&mut deck, 1);
            deck_step(&mut deck, -1);
            assert_eq!(deck.current(), before);
            deck_step(&mut deck, 1);
        }
    }
}

#[test]
fn set_mode_switches() {
    let mut deck = deck_with(1);
    set_mode(&mut deck, false);
    assert_eq!(deck.mode(), Mode::Single);
    assert_eq!(get_deck_summary(&deck).mode, "single");
    set_mode(&mut deck, true);
    assert_eq!(deck.mode(), Mode::All);
}

#[test]
fn default_positions_cascade() {
    assert_eq!(default_pos(Some((100, 50)), 0), (180, 130));
    assert_eq!(default_pos(Some((100, 50)), 2), (252, 202));
    assert_eq!(default_pos(Some((-1920, 0)), 1), (-1804, 116));
    assert_eq!(default_pos(None, 0), (120, 120));
    assert_eq!(default_pos(None, 3), (228, 228));
}

#[test]
fn pin_labels_round_trip() {
    for k in 0..6 {
        assert_eq!(pin_label(k), format!("pin-{k}"));
        assert_eq!(label_slot(pin_label(k)), Some(k));
    }
    assert_eq!(label_slot("control"), None);
    assert_eq!(label_slot("pin-6"), None);
    assert_eq!(label_slot(""), None);
}

fn shown_ids(plan: &RenderPlan) -> Vec<u64> {
    plan.shown.iter().map(|s| s.view.id).collect()
}

#[test]
fn render_all_mode_places_every_image() {
    let mut deck = deck_with(2);
    set_image_pos(&mut deck, 2, 500, 600);
    let plan = render(&mut deck, Some((100, 50)));
    assert_eq!(plan.shown.len(), 2);
    assert_eq!(plan.shown[0].slot, 0);
    assert_eq!(plan.shown[0].pos, (180, 130));
    assert_eq!(plan.shown[1].slot, 1);
    assert_eq!(plan.shown[1].pos, (500, 600));
    assert_eq!(shown_ids(&plan), vec![1, 2]);
    assert_eq!(plan.hidden, vec![2, 3, 4, 5]);
    assert_eq!(deck.image(0).pos, Some((180, 130)));
    let v = &plan.shown[1].view;
    assert_eq!((v.index, v.total), (2, 2));
    assert_eq!(v.mode, "all");
    assert_eq!(v.data_url, "data:image/png;base64,img1");
    assert_eq!(v.width, 11);
    assert_eq!(v.fit_w_bits, 11.0f64.to_bits());
    assert_eq!(plan.summary.count, 2);
    assert_eq!(plan.summary.current, 2);
    assert_eq!(plan.summary.mode, "all");
}

#[test]
fn render_without_monitor_uses_desktop_default() {
    let mut deck = deck_with(3);
    let plan = render(&mut deck, None);
    let pos: Vec<(i32, i32)> = plan.shown.iter().map(|s| s.pos).collect();
    assert_eq!(pos, vec![(120, 120), (156, 156), (192, 192)]);
}

#[test]
fn render_remembered_position_wins_over_default() {
    let mut deck = deck_with(1);
    render(&mut deck, Some((0, 0)));
    let plan = render(&mut deck, Some((1000, 1000)));
    assert_eq!(plan.shown[0].pos, (80, 80));
}

#[test]
fn render_full_pool_hides_nothing() {
    let mut deck = deck_with(6);
    let plan = render(&mut deck, None);
    assert_eq!(plan.shown.len(), 6);
    assert!(plan.hidden.is_empty());
}

#[test]
fn render_empty_deck_hides_every_window() {
    let mut deck = Deck::new();
    let plan = render(&mut deck, None);
    assert!(plan.shown.is_empty());
    assert_eq!(plan.hidden, vec![0, 1, 2, 3, 4, 5]);
    assert_eq!(plan.summary.current, 0);
    set_mode(&mut deck, false);
    let plan = render(&mut deck, None);
    assert!(plan.shown.is_empty());
    assert_eq!(plan.hidden.len(), 6);
}

#[test]
fn render_single_mode_shows_current_in_first_window() {
    let mut deck = deck_with(3);
    set_image_pos(&mut deck, 2, 40, 50);
    set_mode(&mut deck, false);
    deck_step(&mut deck, -1); // current: id 2
    let plan = render(&mut deck, Some((0, 0)));
    assert_eq!(shown_ids(&plan), vec![2]);
    assert_eq!(plan.shown[0].slot, 0);
    assert_eq!(plan.shown[0].pos, (40, 50));
    assert_eq!(plan.shown[0].view.index, 2);
    assert_eq!(plan.shown[0].view.mode, "single");
    assert_eq!(plan.hidden, vec![1, 2, 3, 4, 5]);
    // cycling keeps the viewer in place
    deck_step(&mut deck, 1);
    let plan = render(&mut deck, Some((0, 0)));
    assert_eq!(shown_ids(&plan), vec![3]);
    assert_eq!(plan.shown[0].pos, (40, 50));
}

#[test]
fn render_single_mode_seeds_viewer_with_default() {
    let mut deck = deck_with(2);
    set_mode(&mut deck, false);
    let plan = render(&mut deck, Some((10, 20)));
    assert_eq!(plan.shown[0].pos, (90, 100));
    assert_eq!(deck.image(1).pos, None);
}

#[test]
fn render_twice_gives_the_same_plan() {
    let mut deck = deck_with(4);
    set_image_click_through(&mut deck, 3, true);
    let a = render(&mut deck, Some((3, 4)));
    let b = render(&mut deck, Some((9999, 9999)));
    assert_eq!(shown_ids(&a), shown_ids(&b));
    let pa: Vec<_> = a.shown.iter().map(|s| (s.slot, s.pos, s.click_through)).collect();
    let pb: Vec<_> = b.shown.iter().map(|s| (s.slot, s.pos, s.click_through)).collect();
    assert_eq!(pa, pb);
    assert!(a.shown[2].click_through);
    assert!(a.summary.any_click_through);
}

#[test]
fn remount_sees_the_rendered_view() {
    let mut deck = deck_with(3);
    set_image_scale(&mut deck, 2, 1.5f64.to_bits());
    let plan = render(&mut deck, None);
    for s in &plan.shown {
        let v = get_pin_view(&deck, pin_label(s.slot)).unwrap();
        assert_eq!(v.id, s.view.id);
        assert_eq!(v.index, s.view.index);
        assert_eq!(v.total, s.view.total);
        assert_eq!(v.scale_bits, s.view.scale_bits);
        assert_eq!(v.data_url, s.view.data_url);
        assert_eq!(v.mode, s.view.mode);
    }
    assert!(get_pin_view(&deck, "pin-3").is_none());
    assert!(get_pin_view(&deck, "control").is_none());
}

#[test]
fn remount_after_close_without_render_finds_nothing() {
    let mut deck = deck_with(2);
    render(&mut deck, None);
    close_image(&mut deck, 2);
    assert!(get_pin_view(&deck, "pin-1").is_none());
    assert_eq!(get_pin_view(&deck, "pin-0").unwrap().id, 1);
    assert_eq!(get_pin_view(&deck, "pin-0").unwrap().total, 1);
}

#[test]
fn make_view_counts_from_one() {
    let deck = deck_with(2);
    let v = make_view(deck.image(1), 1, 2, Mode::Single);
    assert_eq!(v.id, 2);
    assert_eq!(v.index, 2);
    assert_eq!(v.total, 2);
    assert_eq!(v.mode, "single");
    assert_eq!(v.height, 20);
}

#[test]
fn can_render_only_when_defaults_fit() {
    let deck = deck_with(2);
    assert!(can_render(&deck, Some((0, 0))));
    assert!(can_render(&deck, None));
    assert!(!can_render(&deck, Some((i32::MAX - 100, 0))));
    assert!(can_render(&deck, Some((i32::MAX - 116, i32::MIN))));
    assert!(!can_render(&deck, Some((i32::MAX - 115, 0))));
    let mut placed = deck_with(2);
    set_image_pos(&mut placed, 1, 0, 0);
    set_image_pos(&mut placed, 2, 0, 0);
    assert!(can_render(&placed, Some((i32::MAX, i32::MAX))));
}

#[test]
fn closing_a_fresh_pin_restores_the_images() {
    let mut deck = deck_with(3);
    let before = ids(&deck);
    let id = create_pin_internal(&mut deck, payload("fresh", 5, 5)).unwrap();
    close_image(&mut deck, id);
    assert_eq!(ids(&deck), before);
}

#[test]
fn plan_covers_every_window_once() {
    for n in 0..=6 {
        for single in [false, true] {
            let mut deck = deck_with(n);
            set_mode(&mut deck, !single);
            let plan = render(&mut deck, None);
            let mut slots: Vec<usize> = plan.shown.iter().map(|s| s.slot).collect();
            slots.extend(plan.hidden.iter().copied());
            slots.sort();
            assert_eq!(slots, vec![0, 1, 2, 3, 4, 5]);
        }
    }
}

#[test]
fn zoom_write_is_read_back() {
    let mut deck = deck_with(3);
    set_image_scale(&mut deck, 2, 2.0f64.to_bits());
    let plan = render(&mut deck, None);
    assert_eq!(plan.shown[1].view.id, 2);
    assert_eq!(plan.shown[1].view.scale_bits, 2.0f64.to_bits());
    assert_eq!(get_pin_view(&deck, "pin-1").unwrap().scale_bits, 2.0f64.to_bits());
    assert_eq!(plan.shown[0].view.scale_bits, UNIT_BITS);
}
