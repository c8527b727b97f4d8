//! Properties of the deck that span several operations.
use vstd::prelude::*;
use crate::deck::{
    after_close, after_create, after_toggle_all, any_click_through, index_of, lemma_index_of,
    step_index, update_image, DeckModel, ImageModel, Mode, PayloadModel, POOL, UNIT_BITS, after_replace,
};
use crate::deck::render::{
    lemma_slot_of_label, pin_label_of, pin_view_of, plan_of, render_fits, rendered,
    needs_default, shown_index, visible_count, summary_of, default_pos_of, pos_fits,
};

verus! {

/// Where the image with id `id` stands, when some image carries it.
proof fn lemma_index_of_found(d: DeckModel, id: u64)
    requires
        index_of(d.images, id) >= 0,
    ensures
        0 <= index_of(d.images, id) < d.images.len(),
        d.images[index_of(d.images, id)].id == id,
{
}

/// Closing the image that was just pinned gives back the deck's images.
pub proof fn law_close_undoes_create(d: DeckModel, p: PayloadModel)
    requires
        d.wf(),
        d.images.len() < POOL,
        d.next_id < u64::MAX,
    ensures
        after_close(after_create(d, p), d.next_id).images == d.images,
{
    let c = after_create(d, p);
    let n = d.images.len() as int;
    assert(c.images[n].id == d.next_id);
    assert forall|i: int, j: int| 0 <= i < j < c.images.len() implies #[trigger] c.images[i].id
        < #[trigger] c.images[j].id by {
        if j == n {
            assert(d.images[i].id < d.next_id);
        } else {
            assert(d.images[i].id < d.images[j].id);
        }
    }
    lemma_index_of(c.images, d.next_id, n);
    assert(c.images.remove(n) =~= d.images);
}

/// Stepping forward one image and then back one returns to the same image.
pub proof fn law_step_there_and_back(current: int, n: int)
    requires
        0 <= current < n,
    ensures
        step_index(step_index(current, n, 1), n, -1) == current,
{
    if current + 1 < n {
        vstd::arithmetic::div_mod::lemma_small_mod((current + 1) as nat, n as nat);
        vstd::arithmetic::div_mod::lemma_small_mod(current as nat, n as nat);
    } else {
        vstd::arithmetic::div_mod::lemma_fundamental_div_mod_converse(current + 1, n, 1, 0);
        vstd::arithmetic::div_mod::lemma_fundamental_div_mod_converse(-1, n, -1, n - 1);
    }
}

/// Stepping stays inside the deck.
pub proof fn law_step_stays_in_deck(current: int, n: int, delta: int)
    requires
        n > 0,
    ensures
        0 <= step_index(current, n, delta) < n,
{
}

/// Closing an image other than the current one keeps the same image current.
pub proof fn law_close_keeps_current_image(d: DeckModel, id: u64)
    requires
        d.wf(),
        index_of(d.images, id) >= 0,
        index_of(d.images, id) != d.current,
    ensures
        after_close(d, id).images[after_close(d, id).current].id == d.images[d.current].id,
{
    lemma_index_of_found(d, id);
}

/// The click-through escape hatch flips whether any image lets clicks
/// through, and leaves all images agreeing.
pub proof fn law_toggle_flips_click_through(d: DeckModel)
    requires
        d.wf(),
        d.images.len() > 0,
    ensures
        any_click_through(after_toggle_all(d).images) == !any_click_through(d.images),
        forall|i: int|
            0 <= i < d.images.len() ==> #[trigger] after_toggle_all(d).images[i].click_through
                == !any_click_through(d.images),
{
    let t = after_toggle_all(d);
    if !any_click_through(d.images) {
        assert(t.images[0].click_through);
    }
}

/// After a render, a window that (re)mounts and asks for its view gets the
/// very view the render pushed to it.
pub proof fn law_remount_sees_rendered_view(d: DeckModel, origin: Option<(i32, i32)>, k: int)
    requires
        d.wf(),
        0 <= k < visible_count(d),
    ensures
        pin_view_of(rendered(d, origin), pin_label_of(k)) == Some(
            plan_of(rendered(d, origin)).shown[k].view,
        ),
{
    let e = rendered(d, origin);
    lemma_slot_of_label(k);
    let idx = shown_index(d, k);
    assert(0 <= idx < d.images.len());
    assert(e.assign[k] == d.images[idx].id);
    assert(e.images[idx].id == d.images[idx].id);
    assert forall|i: int, j: int| 0 <= i < j < e.images.len() implies #[trigger] e.images[i].id
        < #[trigger] e.images[j].id by {
        assert(e.images[i].id == d.images[i].id);
        assert(e.images[j].id == d.images[j].id);
    }
    lemma_index_of(e.images, e.assign[k], idx);
}

/// A zoom set on an image is what the next render hands that image's window,
/// and what the window reads back when it remounts.
pub proof fn law_zoom_write_is_read(
    d: DeckModel,
    id: u64,
    scale_bits: u64,
    origin: Option<(i32, i32)>,
)
    requires
        d.wf(),
        d.mode == Mode::All,
        index_of(d.images, id) >= 0,
    ensures
        ({
            let w = DeckModel {
                images: update_image(d.images, id, |im: ImageModel| ImageModel { scale_bits, ..im }),
                ..d
            };
            let k = index_of(d.images, id);
            &&& plan_of(rendered(w, origin)).shown[k].view.id == id
            &&& plan_of(rendered(w, origin)).shown[k].view.scale_bits == scale_bits
            &&& pin_view_of(rendered(w, origin), pin_label_of(k)) == Some(
                plan_of(rendered(w, origin)).shown[k].view,
            )
        }),
{
    lemma_index_of_found(d, id);
    let w = DeckModel {
        images: update_image(d.images, id, |im: ImageModel| ImageModel { scale_bits, ..im }),
        ..d
    };
    let k = index_of(d.images, id);
    assert forall|i: int, j: int| 0 <= i < j < w.images.len() implies #[trigger] w.images[i].id
        < #[trigger] w.images[j].id by {
        assert(w.images[i].id == d.images[i].id);
        assert(w.images[j].id == d.images[j].id);
    }
    assert(w.wf());
    law_remount_sees_rendered_view(w, origin, k);
}

/// Every shown window lets clicks through exactly when the image it shows
/// does: in show-all mode window k shows image k, in single mode the one
/// window shows the current image. The view agrees, and a render never
/// changes an image's click-through.
pub proof fn law_render_click_through_follows_image(
    d: DeckModel,
    origin: Option<(i32, i32)>,
    k: int,
)
    requires
        d.wf(),
        0 <= k < plan_of(rendered(d, origin)).shown.len(),
    ensures
        ({
            let e = rendered(d, origin);
            let shown = plan_of(e).shown[k];
            let idx = if d.mode == Mode::Single {
                d.current
            } else {
                k
            };
            &&& 0 <= idx < d.images.len()
            &&& shown.view.id == d.images[idx].id
            &&& shown.click_through == d.images[idx].click_through
            &&& shown.view.click_through == d.images[idx].click_through
            &&& e.images[idx].click_through == d.images[idx].click_through
        }),
{
}

/// Closing the current image: when it was not the last one, the index stays
/// and so the image that followed it becomes current; when it was the last
/// one, the image before it becomes current. Every other image keeps its
/// relative order.
pub proof fn law_close_current_moves_to_neighbour(d: DeckModel)
    requires
        d.wf(),
        d.images.len() > 0,
    ensures
        ({
            let a = after_close(d, d.images[d.current].id);
            &&& a.images.len() == d.images.len() - 1
            &&& (d.current + 1 < d.images.len() ==> a.current == d.current && a.images[a.current].id
                == d.images[d.current + 1].id)
            &&& (d.current + 1 == d.images.len() && d.current > 0 ==> a.current == d.current - 1
                && a.images[a.current].id == d.images[d.current - 1].id)
            &&& (d.images.len() == 1 ==> a.current == 0)
            &&& forall|j: int|
                0 <= j < a.images.len() ==> #[trigger] a.images[j].id == (if j < d.current {
                    d.images[j].id
                } else {
                    d.images[j + 1].id
                })
        }),
{
    lemma_index_of(d.images, d.images[d.current].id, d.current);
}

/// A freshly pinned image is appended with the next id and the given pixels,
/// at zoom 1.0 and full opacity, with no remembered position, expanded and
/// catching clicks, whatever the deck held before; it becomes current and the
/// images already pinned stay as they were.
pub proof fn law_create_appends_fresh_image(d: DeckModel, p: PayloadModel)
    requires
        d.wf(),
        d.images.len() < POOL,
        d.next_id < u64::MAX,
    ensures
        ({
            let c = after_create(d, p);
            let n = d.images.len() as int;
            &&& c.images.len() == n + 1
            &&& c.current == n
            &&& c.next_id == d.next_id + 1
            &&& c.mode == d.mode
            &&& c.images[n].id == d.next_id
            &&& c.images[n].image == p
            &&& c.images[n].scale_bits == 0x3FF0_0000_0000_0000u64
            &&& c.images[n].opacity_bits == 0x3FF0_0000_0000_0000u64
            &&& c.images[n].pos is None
            &&& !c.images[n].collapsed
            &&& !c.images[n].click_through
            &&& forall|j: int| 0 <= j < n ==> #[trigger] c.images[j] == d.images[j]
        }),
{
    assert(UNIT_BITS == 0x3FF0_0000_0000_0000u64);
}

/// Replacing an image's pixels gives it exactly the new payload (pixels, size
/// and fitted size), resets its zoom to 1.0 and expands it, and keeps its id,
/// position, opacity and click-through; every other image is untouched.
pub proof fn law_replace_takes_new_payload(d: DeckModel, id: u64, p: PayloadModel)
    requires
        d.wf(),
        index_of(d.images, id) >= 0,
    ensures
        ({
            let r = after_replace(d, id, p);
            let i = index_of(d.images, id);
            &&& 0 <= i < d.images.len()
            &&& r.images.len() == d.images.len()
            &&& r.current == d.current
            &&& r.images[i].image == p
            &&& r.images[i].image.fit_w_bits == p.fit_w_bits
            &&& r.images[i].image.fit_h_bits == p.fit_h_bits
            &&& r.images[i].id == id
            &&& r.images[i].pos == d.images[i].pos
            &&& r.images[i].opacity_bits == d.images[i].opacity_bits
            &&& r.images[i].click_through == d.images[i].click_through
            &&& r.images[i].scale_bits == 0x3FF0_0000_0000_0000u64
            &&& !r.images[i].collapsed
            &&& forall|j: int| 0 <= j < d.images.len() && j != i ==> #[trigger] r.images[j] == d.images[j]
        }),
{
    lemma_index_of_found(d, id);
    assert(UNIT_BITS == 0x3FF0_0000_0000_0000u64);
}

/// The control panel's summary counts every pinned image, in either mode;
/// its current is 1-based (0 for an empty deck), its mode names the deck's
/// mode, and it reports click-through exactly when some image has it.
pub proof fn law_summary_counts_all_images(d: DeckModel)
    requires
        d.wf(),
    ensures
        summary_of(d).count == d.images.len(),
        summary_of(d).current == (if d.images.len() == 0 {
            0
        } else {
            d.current + 1
        }),
        summary_of(d).mode == (if d.mode == Mode::All {
            "all"@
        } else {
            "single"@
        }),
        summary_of(d).any_click_through == (exists|i: int|
            0 <= i < d.images.len() && #[trigger] d.images[i].click_through),
{
}

/// Updating the image with a given id changes that image, as the update
/// says, and nothing else.
pub proof fn law_update_touches_only_that_image(
    d: DeckModel,
    id: u64,
    f: spec_fn(ImageModel) -> ImageModel,
)
    requires
        d.wf(),
    ensures
        update_image(d.images, id, f).len() == d.images.len(),
        index_of(d.images, id) >= 0 ==> update_image(d.images, id, f)[index_of(d.images, id)] == f(
            d.images[index_of(d.images, id)],
        ),
        forall|j: int|
            0 <= j < d.images.len() && d.images[j].id != id ==> #[trigger] update_image(
                d.images,
                id,
                f,
            )[j] == d.images[j],
        (forall|j: int| 0 <= j < d.images.len() ==> d.images[j].id != id) ==> update_image(
            d.images,
            id,
            f,
        ) == d.images,
{
    if index_of(d.images, id) >= 0 {
        lemma_index_of_found(d, id);
    }
}

/// One step forward moves to the next image, wrapping from the last to the
/// first; one step back moves to the previous one, wrapping from the first to
/// the last.
pub proof fn law_step_moves_by_one(current: int, n: int)
    requires
        0 <= current < n,
    ensures
        step_index(current, n, 1) == (if current + 1 < n {
            current + 1
        } else {
            0
        }),
        step_index(current, n, -1) == (if current > 0 {
            current - 1
        } else {
            n - 1
        }),
{
    if current + 1 < n {
        vstd::arithmetic::div_mod::lemma_small_mod((current + 1) as nat, n as nat);
    } else {
        vstd::arithmetic::div_mod::lemma_fundamental_div_mod_converse(current + 1, n, 1, 0);
    }
    if current > 0 {
        vstd::arithmetic::div_mod::lemma_small_mod((current - 1) as nat, n as nat);
    } else {
        vstd::arithmetic::div_mod::lemma_fundamental_div_mod_converse(-1, n, -1, n - 1);
    }
}

/// Default positions cascade: each further window sits 36 px right and down
/// of the previous one, the first 80 px into the monitor (or at 120, 120
/// without one).
pub proof fn law_default_positions_cascade(origin: Option<(i32, i32)>, order: int)
    requires
        pos_fits(origin, order + 1),
    ensures
        default_pos_of(origin, order + 1).0 == default_pos_of(origin, order).0 + 36,
        default_pos_of(origin, order + 1).1 == default_pos_of(origin, order).1 + 36,
        default_pos_of(origin, 0) == (match origin {
            Some(p) => ((p.0 + 80) as i32, (p.1 + 80) as i32),
            None => (120i32, 120i32),
        }),
{
}

/// In show-all mode, window k is placed at image k's remembered position, or,
/// if it had none, at the k-th default position, which the image then keeps.
pub proof fn law_all_mode_positions(d: DeckModel, origin: Option<(i32, i32)>, k: int)
    requires
        d.wf(),
        d.mode == Mode::All,
        0 <= k < d.images.len(),
    ensures
        plan_of(rendered(d, origin)).shown[k].pos == (match d.images[k].pos {
            Some(p) => p,
            None => default_pos_of(origin, k),
        }),
        rendered(d, origin).images[k].pos == Some(plan_of(rendered(d, origin)).shown[k].pos),
{
}

/// A second render with nothing changed in between changes nothing, and
/// needs no default position.
pub proof fn law_render_is_idempotent(d: DeckModel, origin: Option<(i32, i32)>)
    requires
        d.wf(),
    ensures
        render_fits(rendered(d, origin), origin),
        rendered(rendered(d, origin), origin) == rendered(d, origin),
{
    let e = rendered(d, origin);
    assert forall|k: int| 0 <= k < visible_count(e) && #[trigger] needs_default(e, k) implies false by {
        if d.mode == Mode::All {
            assert(e.images[k].pos is Some);
        }
    }
    let f = rendered(e, origin);
    assert(f.images =~= e.images);
    assert(f.assign =~= e.assign);
}

/// In show-all mode every pinned image has a window, the k-th image in the
/// k-th window.
pub proof fn law_all_mode_shows_every_image(d: DeckModel, origin: Option<(i32, i32)>)
    requires
        d.wf(),
        d.mode == Mode::All,
    ensures
        plan_of(rendered(d, origin)).shown.len() == d.images.len(),
        forall|k: int|
            0 <= k < d.images.len() ==> #[trigger] plan_of(rendered(d, origin)).shown[k].view.id
                == d.images[k].id,
{
}

/// In single mode exactly the current image is shown (when there is one),
/// in the first window.
pub proof fn law_single_mode_shows_current(d: DeckModel, origin: Option<(i32, i32)>)
    requires
        d.wf(),
        d.mode == Mode::Single,
        d.images.len() > 0,
    ensures
        plan_of(rendered(d, origin)).shown.len() == 1,
        plan_of(rendered(d, origin)).shown[0].slot == 0,
        plan_of(rendered(d, origin)).shown[0].view.id == d.images[d.current].id,
{
}

/// Cycling in single mode swaps the image in place: once the viewer has a
/// position, a step and a render keep the viewer there.
pub proof fn law_single_viewer_stays_put(d: DeckModel, origin: Option<(i32, i32)>, delta: int)
    requires
        d.wf(),
        d.mode == Mode::Single,
        d.images.len() > 0,
        d.single_pos is Some,
    ensures
        ({
            let s = DeckModel {
                current: step_index(d.current, d.images.len() as int, delta),
                ..d
            };
            plan_of(rendered(s, origin)).shown[0].pos == d.single_pos->0
        }),
{
}

/// Every window of the pool is either shown or hidden, never both.
pub proof fn law_plan_covers_pool(d: DeckModel, origin: Option<(i32, i32)>, slot: int)
    requires
        d.wf(),
        0 <= slot < POOL,
    ensures
        ({
            let p = plan_of(rendered(d, origin));
            (exists|k: int| 0 <= k < p.shown.len() && #[trigger] p.shown[k].slot == slot) != p.hidden.contains(
                slot as usize,
            )
        }),
{
    let p = plan_of(rendered(d, origin));
    let vc = visible_count(rendered(d, origin));
    if slot < vc {
        assert(p.shown[slot].slot == slot);
        if p.hidden.contains(slot as usize) {
            let j = choose|j: int| 0 <= j < p.hidden.len() && p.hidden[j] == slot as usize;
            assert(p.hidden[j] == (vc + j) as usize);
        }
    } else {
        assert(p.hidden[slot - vc] == slot as usize);
        assert(p.hidden.contains(slot as usize));
        assert forall|k: int| 0 <= k < p.shown.len() implies #[trigger] p.shown[k].slot != slot by {}
    }
}

} // verus!
