//! Mapping the deck onto the fixed pool of pin windows: which window shows
//! which image at which position, which windows hide, and the views and
//! summary pushed to the frontend.
use vstd::prelude::*;
use super::{
    any_click_through, index_of, mode_name, pool_size, Deck, DeckImage, DeckModel, ImageModel,
    Mode, POOL,
};

verus! {

/// Everything a pin window needs to draw its image.
pub struct PinView {
    pub id: u64,
    pub data_url: String,
    pub width: u32,
    pub height: u32,
    pub fit_w_bits: u64,
    pub fit_h_bits: u64,
    pub scale_bits: u64,
    pub opacity_bits: u64,
    pub collapsed: bool,
    pub mode: String,
    pub index: usize,
    pub total: usize,
    pub click_through: bool,
}

pub struct PinViewModel {
    pub id: u64,
    pub data_url: Seq<char>,
    pub width: u32,
    pub height: u32,
    pub fit_w_bits: u64,
    pub fit_h_bits: u64,
    pub scale_bits: u64,
    pub opacity_bits: u64,
    pub collapsed: bool,
    pub mode: Seq<char>,
    pub index: int,
    pub total: int,
    pub click_through: bool,
}

impl View for PinView {
    type V = PinViewModel;

    open spec fn view(&self) -> PinViewModel {
        PinViewModel {
            id: self.id,
            data_url: self.data_url@,
            width: self.width,
            height: self.height,
            fit_w_bits: self.fit_w_bits,
            fit_h_bits: self.fit_h_bits,
            scale_bits: self.scale_bits,
            opacity_bits: self.opacity_bits,
            collapsed: self.collapsed,
            mode: self.mode@,
            index: self.index as int,
            total: self.total as int,
            click_through: self.click_through,
        }
    }
}

/// What the control panel shows: how many images, the mode, the 1-based
/// current image (0 when empty), and whether any image lets clicks through.
pub struct DeckSummary {
    pub count: usize,
    pub mode: String,
    pub current: usize,
    pub any_click_through: bool,
}

pub struct DeckSummaryModel {
    pub count: int,
    pub mode: Seq<char>,
    pub current: int,
    pub any_click_through: bool,
}

impl View for DeckSummary {
    type V = DeckSummaryModel;

    open spec fn view(&self) -> DeckSummaryModel {
        DeckSummaryModel {
            count: self.count as int,
            mode: self.mode@,
            current: self.current as int,
            any_click_through: self.any_click_through,
        }
    }
}

/// One window to show: pool slot, physical top-left, whether clicks pass
/// through it, and the view it is handed.
pub struct ShownSlot {
    pub slot: usize,
    pub pos: (i32, i32),
    pub click_through: bool,
    pub view: PinView,
}

pub struct ShownModel {
    pub slot: int,
    pub pos: (i32, i32),
    pub click_through: bool,
    pub view: PinViewModel,
}

impl View for ShownSlot {
    type V = ShownModel;

    open spec fn view(&self) -> ShownModel {
        ShownModel {
            slot: self.slot as int,
            pos: self.pos,
            click_through: self.click_through,
            view: self.view@,
        }
    }
}

/// The windows to show (in pool order), the slots to hide (in pool order),
/// and the summary to announce.
pub struct RenderPlan {
    pub shown: Vec<ShownSlot>,
    pub hidden: Vec<usize>,
    pub summary: DeckSummary,
}

pub struct RenderPlanModel {
    pub shown: Seq<ShownModel>,
    pub hidden: Seq<usize>,
    pub summary: DeckSummaryModel,
}

impl View for RenderPlan {
    type V = RenderPlanModel;

    open spec fn view(&self) -> RenderPlanModel {
        RenderPlanModel {
            shown: self.shown@.map_values(|s: ShownSlot| s@),
            hidden: self.hidden@,
            summary: self.summary@,
        }
    }
}

/// The label of pin window `k` of the pool.
pub open spec fn pin_label_of(k: int) -> Seq<char> {
    if k == 0 {
        "pin-0"@
    } else if k == 1 {
        "pin-1"@
    } else if k == 2 {
        "pin-2"@
    } else if k == 3 {
        "pin-3"@
    } else if k == 4 {
        "pin-4"@
    } else {
        "pin-5"@
    }
}

/// The view handed to a window showing `img`, the `index`-th image (from 0)
/// of `total`; the frontend counts from 1.
pub open spec fn view_of(img: ImageModel, index: int, total: int, mode: Mode) -> PinViewModel {
    PinViewModel {
        id: img.id,
        data_url: img.image.data_url,
        width: img.image.width,
        height: img.image.height,
        fit_w_bits: img.image.fit_w_bits,
        fit_h_bits: img.image.fit_h_bits,
        scale_bits: img.scale_bits,
        opacity_bits: img.opacity_bits,
        collapsed: img.collapsed,
        mode: mode_name(mode),
        index: index + 1,
        total,
        click_through: img.click_through,
    }
}

pub open spec fn summary_of(d: DeckModel) -> DeckSummaryModel {
    DeckSummaryModel {
        count: d.images.len() as int,
        mode: mode_name(d.mode),
        current: if d.images.len() == 0 {
            0
        } else {
            d.current + 1
        },
        any_click_through: any_click_through(d.images),
    }
}

/// Whether the cascaded default position of the `order`-th shown window can
/// be computed without leaving `i32`.
pub open spec fn pos_fits(origin: Option<(i32, i32)>, order: int) -> bool {
    &&& 0 <= order
    &&& 36 * order <= i32::MAX
    &&& match origin {
        Some(p) => p.0 + 80 + 36 * order <= i32::MAX && p.1 + 80 + 36 * order <= i32::MAX,
        None => 120 + 36 * order <= i32::MAX,
    }
}

/// Default physical top-left of the `order`-th shown window: 80 px into the
/// monitor (at `origin`) or 120 px into the desktop when there is no monitor,
/// cascaded by 36 px per window so stacked images do not overlap exactly.
pub open spec fn default_pos_of(origin: Option<(i32, i32)>, order: int) -> (i32, i32) {
    match origin {
        Some(p) => ((p.0 + 80 + 36 * order) as i32, (p.1 + 80 + 36 * order) as i32),
        None => ((120 + 36 * order) as i32, (120 + 36 * order) as i32),
    }
}

/// How many pool windows show an image.
pub open spec fn visible_count(d: DeckModel) -> int {
    match d.mode {
        Mode::All => if d.images.len() < POOL {
            d.images.len() as int
        } else {
            POOL as int
        },
        Mode::Single => if d.images.len() == 0 {
            0
        } else {
            1
        },
    }
}

/// Deck index of the image shown in pool window `k`.
pub open spec fn shown_index(d: DeckModel, k: int) -> int {
    if d.mode == Mode::All {
        k
    } else {
        d.current
    }
}

/// Whether showing window `k` needs a default position.
pub open spec fn needs_default(d: DeckModel, k: int) -> bool {
    if d.mode == Mode::All {
        d.images[k].pos is None
    } else {
        k == 0 && d.single_pos is None && d.images[d.current].pos is None
    }
}

/// Whether every default position a render of `d` needs stays in `i32`.
pub open spec fn render_fits(d: DeckModel, origin: Option<(i32, i32)>) -> bool {
    forall|k: int| 0 <= k < visible_count(d) && #[trigger] needs_default(d, k) ==> pos_fits(origin, k)
}

/// The image at deck index `i` after a render: in show-all mode a shown image
/// without a remembered position gets its default one.
pub open spec fn rendered_image(d: DeckModel, origin: Option<(i32, i32)>, i: int) -> ImageModel {
    if d.mode == Mode::All && i < visible_count(d) && d.images[i].pos is None {
        ImageModel { pos: Some(default_pos_of(origin, i)), ..d.images[i] }
    } else {
        d.images[i]
    }
}

/// The deck after a render: shown images have positions, the single-mode
/// viewer has one (seeded from the current image's spot, or the default), and
/// each pool window records the id of the image it shows.
pub open spec fn rendered(d: DeckModel, origin: Option<(i32, i32)>) -> DeckModel {
    DeckModel {
        images: Seq::new(d.images.len(), |i: int| rendered_image(d, origin, i)),
        single_pos: if d.mode == Mode::Single && d.images.len() > 0 && d.single_pos is None {
            Some(
                match d.images[d.current].pos {
                    Some(p) => p,
                    None => default_pos_of(origin, 0),
                },
            )
        } else {
            d.single_pos
        },
        assign: Seq::new(visible_count(d) as nat, |k: int| d.images[shown_index(d, k)].id),
        ..d
    }
}

/// What pool window `k` shows, given the deck after the render.
pub open spec fn shown_of(e: DeckModel, k: int) -> ShownModel {
    let idx = shown_index(e, k);
    ShownModel {
        slot: k,
        pos: if e.mode == Mode::Single {
            e.single_pos->0
        } else {
            e.images[idx].pos->0
        },
        click_through: e.images[idx].click_through,
        view: view_of(e.images[idx], idx, e.images.len() as int, e.mode),
    }
}

/// The plan of a render, given the deck after it.
pub open spec fn plan_of(e: DeckModel) -> RenderPlanModel {
    let vc = visible_count(e);
    RenderPlanModel {
        shown: Seq::new(vc as nat, |k: int| shown_of(e, k)),
        hidden: Seq::new((POOL - vc) as nat, |j: int| (vc + j) as usize),
        summary: summary_of(e),
    }
}

/// Pool slot of the window with the given label, or -1.
pub open spec fn slot_of_label(label: Seq<char>) -> int {
    if exists|k: int| 0 <= k < POOL && pin_label_of(k) == label {
        choose|k: int| 0 <= k < POOL && pin_label_of(k) == label
    } else {
        -1
    }
}

/// What a window with the given label should show on (re)mount.
pub open spec fn pin_view_of(d: DeckModel, label: Seq<char>) -> Option<PinViewModel> {
    let k = slot_of_label(label);
    if k < 0 || k >= d.assign.len() {
        None
    } else {
        let i = index_of(d.images, d.assign[k]);
        if i < 0 {
            None
        } else {
            Some(view_of(d.images[i], i, d.images.len() as int, d.mode))
        }
    }
}

/// The label of pin window `slot`.
pub fn pin_label(slot: usize) -> (l: &'static str)
    requires
        slot < POOL,
    ensures
        l@ == pin_label_of(slot as int),
{
    if slot == 0 {
        "pin-0"
    } else if slot == 1 {
        "pin-1"
    } else if slot == 2 {
        "pin-2"
    } else if slot == 3 {
        "pin-3"
    } else if slot == 4 {
        "pin-4"
    } else {
        "pin-5"
    }
}

/// Pool slot of the pin window with the given label.
pub fn label_slot(label: &str) -> (r: Option<usize>)
    ensures
        match r {
            Some(k) => k < POOL && pin_label_of(k as int) == label@,
            None => forall|k: int| 0 <= k < POOL ==> pin_label_of(k) != label@,
        },
{
    let wanted = String::from_str(label);
    let mut k: usize = 0;
    while k < pool_size()
        invariant
            k <= POOL,
            wanted@ == label@,
            forall|j: int| 0 <= j < k ==> pin_label_of(j) != label@,
        decreases POOL - k,
    {
        let candidate = String::from_str(pin_label(k));
        if candidate == wanted {
            return Some(k);
        }
        k = k + 1;
    }
    None
}

/// The view handed to a window showing `img`, the `index`-th of `total`.
pub fn make_view(img: &DeckImage, index: usize, total: usize, mode: Mode) -> (v: PinView)
    requires
        index < usize::MAX,
    ensures
        v@ == view_of(img@, index as int, total as int, mode),
{
    PinView {
        id: img.id,
        data_url: img.image.data_url.clone(),
        width: img.image.width,
        height: img.image.height,
        fit_w_bits: img.image.fit_w_bits,
        fit_h_bits: img.image.fit_h_bits,
        scale_bits: img.scale_bits,
        opacity_bits: img.opacity_bits,
        collapsed: img.collapsed,
        mode: String::from_str(mode.as_str()),
        index: index + 1,
        total,
        click_through: img.click_through,
    }
}

/// Default physical top-left of the `order`-th shown window.
pub fn default_pos(origin: Option<(i32, i32)>, order: usize) -> (p: (i32, i32))
    requires
        pos_fits(origin, order as int),
    ensures
        p == default_pos_of(origin, order as int),
{
    let off = 36 * (order as i32);
    match origin {
        Some((x, y)) => (x + 80 + off, y + 80 + off),
        None => (120 + off, 120 + off),
    }
}

/// The control panel's summary of the deck.
pub fn get_deck_summary(deck: &Deck) -> (s: DeckSummary)
    requires
        deck.wf(),
    ensures
        s@ == summary_of(deck@),
        s.count == deck@.images.len(),
        s.current == (if deck@.images.len() == 0 {
            0
        } else {
            deck@.current + 1
        }),
        s.any_click_through == (exists|i: int|
            0 <= i < deck@.images.len() && #[trigger] deck@.images[i].click_through),
{
    let n = deck.images.len();
    let mut any = false;
    let mut i: usize = 0;
    while i < n
        invariant
            n == deck@.images.len(),
            i <= n,
            any <==> exists|j: int| 0 <= j < i && #[trigger] deck@.images[j].click_through,
        decreases n - i,
    {
        assert(deck@.images[i as int].click_through == deck.images[i as int].click_through);
        if deck.images[i].click_through {
            any = true;
        }
        i = i + 1;
    }
    proof {
        crate::laws::law_summary_counts_all_images(deck@);
    }
    DeckSummary {
        count: n,
        mode: String::from_str(deck.mode.as_str()),
        current: if n == 0 {
            0
        } else {
            deck.current + 1
        },
        any_click_through: any,
    }
}

/// What the window with the given label should show on (re)mount: the image
/// the last render put there, if it is still pinned.
pub fn get_pin_view(deck: &Deck, label: &str) -> (r: Option<PinView>)
    requires
        deck.wf(),
    ensures
        match r {
            Some(v) => pin_view_of(deck@, label@) == Some(v@),
            None => pin_view_of(deck@, label@) is None,
        },
{
    let k = match label_slot(label) {
        Some(k) => k,
        None => {
            assert(slot_of_label(label@) == -1);
            return None;
        },
    };
    proof {
        lemma_slot_of_label(k as int);
    }
    if k >= deck.assign.len() {
        return None;
    }
    let id = deck.assign[k];
    match super::find_index(deck, id) {
        Some(i) => {
            assert(deck@.images[i as int] == deck.images@[i as int]@);
            Some(make_view(&deck.images[i], i, deck.images.len(), deck.mode))
        },
        None => None,
    }
}

/// Whether the default position of the `order`-th shown window stays in `i32`.
fn pos_fits_exec(origin: Option<(i32, i32)>, order: usize) -> (b: bool)
    ensures
        b == pos_fits(origin, order as int),
{
    let limit: i64 = 0x7fff_ffff;
    if order > 0x7fff_ffff {
        return false;
    }
    let off = 36 * (order as i64);
    if off > limit {
        return false;
    }
    match origin {
        Some((x, y)) => (x as i64) + 80 + off <= limit && (y as i64) + 80 + off <= limit,
        None => 120 + off <= limit,
    }
}

/// Number of pool windows a render of the deck shows.
fn visible_count_exec(deck: &Deck) -> (n: usize)
    ensures
        n == visible_count(deck@),
        n <= POOL,
{
    let total = deck.images.len();
    match deck.mode {
        Mode::All => if total < pool_size() {
            total
        } else {
            pool_size()
        },
        Mode::Single => if total == 0 {
            0
        } else {
            1
        },
    }
}

/// Whether a render of the deck can compute every default position it needs
/// (monitor coordinates near the end of the `i32` range would overflow).
pub fn can_render(deck: &Deck, origin: Option<(i32, i32)>) -> (b: bool)
    requires
        deck.wf(),
    ensures
        b == render_fits(deck@, origin),
{
    let vc = visible_count_exec(deck);
    let mut k: usize = 0;
    while k < vc
        invariant
            deck.wf(),
            vc == visible_count(deck@),
            k <= vc,
            forall|j: int| 0 <= j < k && #[trigger] needs_default(deck@, j) ==> pos_fits(origin, j),
        decreases vc - k,
    {
        let needs = if deck.mode == Mode::All {
            assert(deck@.images[k as int] == deck.images@[k as int]@);
            deck.images[k].pos.is_none()
        } else {
            assert(deck@.images[deck@.current] == deck.images@[deck@.current]@);
            k == 0 && deck.single_pos.is_none() && deck.images[deck.current].pos.is_none()
        };
        assert(needs == needs_default(deck@, k as int));
        if needs && !pos_fits_exec(origin, k) {
            return false;
        }
        k = k + 1;
    }
    true
}

/// Reconcile the deck with the window pool: every shown image gets a
/// position (its remembered one, or a cascaded default from `origin`, the
/// top-left of the monitor under the cursor), each window records which image
/// it shows, and the plan says which windows to show with which view, which
/// to hide, and the summary to announce.
pub fn render(deck: &mut Deck, origin: Option<(i32, i32)>) -> (plan: RenderPlan)
    requires
        old(deck).wf(),
        render_fits(old(deck)@, origin),
    ensures
        final(deck).wf(),
        final(deck)@ == rendered(old(deck)@, origin),
        plan@ == plan_of(final(deck)@),
        forall|k: int|
            0 <= k < plan@.shown.len() ==> {
                let idx = if old(deck)@.mode == Mode::Single {
                    old(deck)@.current
                } else {
                    k
                };
                &&& #[trigger] plan@.shown[k].click_through == old(deck)@.images[idx].click_through
                &&& plan@.shown[k].view.id == old(deck)@.images[idx].id
            },
{
    let total = deck.images.len();
    let mode = deck.mode;
    if deck.current >= total {
        deck.current = total.saturating_sub(1);
    }
    let ghost d0 = deck@;
    let ghost e = rendered(d0, origin);
    let vc = visible_count_exec(deck);
    deck.assign.clear();
    let mut shown: Vec<ShownSlot> = Vec::new();
    let mut order: usize = 0;
    while order < vc
        invariant
            d0.wf(),
            render_fits(d0, origin),
            e == rendered(d0, origin),
            vc == visible_count(d0),
            vc <= POOL,
            order <= vc,
            total == d0.images.len(),
            mode == d0.mode,
            deck@.images.len() == total,
            deck@.mode == d0.mode,
            deck@.current == d0.current,
            deck@.next_id == d0.next_id,
            forall|i: int|
                0 <= i < total ==> #[trigger] deck@.images[i] == (if mode == Mode::All && i
                    < order {
                    e.images[i]
                } else {
                    d0.images[i]
                }),
            deck@.single_pos == (if mode == Mode::Single && order > 0 {
                e.single_pos
            } else {
                d0.single_pos
            }),
            deck@.assign =~= Seq::new(order as nat, |k: int| d0.images[shown_index(d0, k)].id),
            shown@.len() == order,
            forall|k: int| 0 <= k < order ==> #[trigger] shown@[k]@ == shown_of(e, k),
        decreases vc - order,
    {
        let ghost before = deck@;
        let idx = if mode == Mode::Single {
            deck.current
        } else {
            order
        };
        assert(0 <= idx < total);
        assert(idx as int == shown_index(d0, order as int));
        let pos = if mode == Mode::Single {
            if deck.single_pos.is_none() {
                assert(deck@.images[idx as int] == deck.images@[idx as int]@);
                let seed = match deck.images[idx].pos {
                    Some(p) => p,
                    None => {
                        assert(needs_default(d0, 0));
                        default_pos(origin, 0)
                    },
                };
                deck.single_pos = Some(seed);
            }
            deck.single_pos.unwrap()
        } else {
            assert(deck@.images[idx as int] == deck.images@[idx as int]@);
            if deck.images[idx].pos.is_none() {
                assert(needs_default(d0, order as int));
                let p = default_pos(origin, order);
                deck.images[idx].pos = Some(p);
                assert(deck@.images =~= before.images.update(
                    idx as int,
                    ImageModel { pos: Some(p), ..before.images[idx as int] },
                ));
            }
            deck.images[idx].pos.unwrap()
        };
        assert(deck@.images[idx as int] == deck.images@[idx as int]@);
        assert(deck@.images[idx as int] == e.images[idx as int]);
        let ct = deck.images[idx].click_through;
        let id = deck.images[idx].id;
        deck.assign.push(id);
        let view = make_view(&deck.images[idx], idx, total, mode);
        shown.push(ShownSlot { slot: order, pos, click_through: ct, view });
        proof {
            assert(shown@[order as int]@ == shown_of(e, order as int));
        }
        order = order + 1;
    }
    proof {
        assert(deck@.images =~= e.images);
        assert(deck@ == e);
    }
    let mut hidden: Vec<usize> = Vec::new();
    let mut slot = vc;
    while slot < pool_size()
        invariant
            vc <= slot <= POOL,
            hidden@ =~= Seq::new((slot - vc) as nat, |j: int| (vc + j) as usize),
        decreases POOL - slot,
    {
        hidden.push(slot);
        slot = slot + 1;
    }
    let summary = get_deck_summary(deck);
    let plan = RenderPlan { shown, hidden, summary };
    assert(plan@.shown =~= plan_of(e).shown);
    proof {
        assert forall|k: int| 0 <= k < plan@.shown.len() implies {
            let idx = if d0.mode == Mode::Single {
                d0.current
            } else {
                k
            };
            &&& #[trigger] plan@.shown[k].click_through == d0.images[idx].click_through
            &&& plan@.shown[k].view.id == d0.images[idx].id
        } by {
            crate::laws::law_render_click_through_follows_image(d0, origin, k);
        }
    }
    plan
}

proof fn lemma_pin_labels_distinct()
    ensures
        forall|a: int, b: int|
            0 <= a < b < POOL ==> #[trigger] pin_label_of(a) != #[trigger] pin_label_of(b),
{
    reveal_strlit("pin-0");
    reveal_strlit("pin-1");
    reveal_strlit("pin-2");
    reveal_strlit("pin-3");
    reveal_strlit("pin-4");
    reveal_strlit("pin-5");
    assert forall|a: int, b: int| 0 <= a < b < POOL implies #[trigger] pin_label_of(a)
        != #[trigger] pin_label_of(b) by {
        assert(pin_label_of(a)[4] != pin_label_of(b)[4]);
    }
}

/// The label of window `k` leads back to window `k`.
pub proof fn lemma_slot_of_label(k: int)
    requires
        0 <= k < POOL,
    ensures
        slot_of_label(pin_label_of(k)) == k,
{
    lemma_pin_labels_distinct();
    let c = choose|j: int| 0 <= j < POOL && pin_label_of(j) == pin_label_of(k);
    assert(0 <= c < POOL && pin_label_of(c) == pin_label_of(k));
    if c < k {
        assert(pin_label_of(c) != pin_label_of(k));
    } else if c > k {
        assert(pin_label_of(k) != pin_label_of(c));
    }
}

} // verus!
