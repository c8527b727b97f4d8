//! The deck: the images currently pinned, how they are presented, and the
//! mutations the frontend asks for. Floating-point values that the deck only
//! stores (fitted sizes, zoom, opacity) are carried as the bit patterns of
//! their `f64` values; the deck never computes with them.
use vstd::prelude::*;

pub mod render;

verus! {

/// The pool size, usable in specifications and code alike.
pub const POOL: usize = 6;

/// Bit pattern of the `f64` value 1.0: the zoom and opacity of a fresh image.
pub const UNIT_BITS: u64 = 0x3FF0_0000_0000_0000;

/// Number of pin windows in the pool; also the most images held at once
/// (every image needs its own window when all are shown).
pub fn pool_size() -> (n: usize)
    ensures
        n == POOL,
{
    POOL
}

/// How the deck is presented: every image in its own window, or one viewer
/// window cycling through the images.
#[derive(Clone, Copy, PartialEq, Eq, Structural, Debug)]
pub enum Mode {
    All,
    Single,
}

/// The name of a mode as the frontend sees it.
pub open spec fn mode_name(m: Mode) -> Seq<char> {
    match m {
        Mode::All => "all"@,
        Mode::Single => "single"@,
    }
}

impl Mode {
    pub fn as_str(self) -> (s: &'static str)
        ensures
            s@ == mode_name(self),
    {
        match self {
            Mode::All => "all",
            Mode::Single => "single",
        }
    }
}

/// Source pixel data of a pinned image: a PNG data URL, its pixel size, and
/// the logical size it was fitted to (the "100%" zoom baseline), the latter
/// as `f64` bit patterns.
pub struct PinImagePayload {
    pub data_url: String,
    pub width: u32,
    pub height: u32,
    pub fit_w_bits: u64,
    pub fit_h_bits: u64,
}

pub struct PayloadModel {
    pub data_url: Seq<char>,
    pub width: u32,
    pub height: u32,
    pub fit_w_bits: u64,
    pub fit_h_bits: u64,
}

impl View for PinImagePayload {
    type V = PayloadModel;

    open spec fn view(&self) -> PayloadModel {
        PayloadModel {
            data_url: self.data_url@,
            width: self.width,
            height: self.height,
            fit_w_bits: self.fit_w_bits,
            fit_h_bits: self.fit_h_bits,
        }
    }
}

/// One image in the deck. `pos` is the window's physical top-left,
/// remembered so "show all" restores each image where the user dragged it.
pub struct DeckImage {
    pub id: u64,
    pub image: PinImagePayload,
    pub pos: Option<(i32, i32)>,
    pub scale_bits: u64,
    pub opacity_bits: u64,
    pub collapsed: bool,
    pub click_through: bool,
}

pub struct ImageModel {
    pub id: u64,
    pub image: PayloadModel,
    pub pos: Option<(i32, i32)>,
    pub scale_bits: u64,
    pub opacity_bits: u64,
    pub collapsed: bool,
    pub click_through: bool,
}

impl View for DeckImage {
    type V = ImageModel;

    open spec fn view(&self) -> ImageModel {
        ImageModel {
            id: self.id,
            image: self.image@,
            pos: self.pos,
            scale_bits: self.scale_bits,
            opacity_bits: self.opacity_bits,
            collapsed: self.collapsed,
            click_through: self.click_through,
        }
    }
}

/// The whole presentation state. `assign[k]` is the id of the image shown in
/// pin window `k` at the last render; in single mode the one viewer window
/// keeps its own position `single_pos`, separate from any image's.
pub struct Deck {
    images: Vec<DeckImage>,
    mode: Mode,
    current: usize,
    single_pos: Option<(i32, i32)>,
    assign: Vec<u64>,
    next_id: u64,
}

pub struct DeckModel {
    pub images: Seq<ImageModel>,
    pub mode: Mode,
    pub current: int,
    pub single_pos: Option<(i32, i32)>,
    pub assign: Seq<u64>,
    pub next_id: u64,
}

impl DeckModel {
    /// The deck's invariant: at most a pool's worth of images, the current
    /// index inside the deck (0 when empty), ids strictly increasing in deck
    /// order and all below the next id to hand out.
    pub open spec fn wf(self) -> bool {
        &&& self.images.len() <= POOL
        &&& if self.images.len() == 0 {
            self.current == 0
        } else {
            0 <= self.current < self.images.len()
        }
        &&& forall|i: int, j: int|
            0 <= i < j < self.images.len() ==> #[trigger] self.images[i].id
                < #[trigger] self.images[j].id
        &&& forall|i: int| 0 <= i < self.images.len() ==> #[trigger] self.images[i].id < self.next_id
        &&& self.assign.len() <= POOL
    }
}

impl View for Deck {
    type V = DeckModel;

    closed spec fn view(&self) -> DeckModel {
        DeckModel {
            images: self.images@.map_values(|im: DeckImage| im@),
            mode: self.mode,
            current: self.current as int,
            single_pos: self.single_pos,
            assign: self.assign@,
            next_id: self.next_id,
        }
    }
}

/// Deck index of the image with the given id, or -1 when none has it.
pub open spec fn index_of(images: Seq<ImageModel>, id: u64) -> int {
    if exists|i: int| 0 <= i < images.len() && images[i].id == id {
        choose|i: int| 0 <= i < images.len() && images[i].id == id
    } else {
        -1
    }
}

/// `images` with the image whose id is `id` replaced by `f` of it.
pub open spec fn update_image(
    images: Seq<ImageModel>,
    id: u64,
    f: spec_fn(ImageModel) -> ImageModel,
) -> Seq<ImageModel> {
    let i = index_of(images, id);
    if i >= 0 {
        images.update(i, f(images[i]))
    } else {
        images
    }
}

/// Whether any image lets clicks pass through its window.
pub open spec fn any_click_through(images: Seq<ImageModel>) -> bool {
    exists|i: int| 0 <= i < images.len() && #[trigger] images[i].click_through
}

/// The empty deck, showing all, handing out ids from 1.
pub open spec fn initial_deck() -> DeckModel {
    DeckModel {
        images: Seq::empty(),
        mode: Mode::All,
        current: 0,
        single_pos: None,
        assign: Seq::empty(),
        next_id: 1,
    }
}

/// A fresh image as it enters the deck.
pub open spec fn fresh_image(id: u64, image: PayloadModel) -> ImageModel {
    ImageModel {
        id,
        image,
        pos: None,
        scale_bits: UNIT_BITS,
        opacity_bits: UNIT_BITS,
        collapsed: false,
        click_through: false,
    }
}

/// The deck after pinning `image`, when there is room: it joins at the end
/// with the next id and becomes the current image.
pub open spec fn after_create(d: DeckModel, image: PayloadModel) -> DeckModel {
    DeckModel {
        images: d.images.push(fresh_image(d.next_id, image)),
        current: d.images.len() as int,
        next_id: (d.next_id + 1) as u64,
        ..d
    }
}

/// The deck after the image `id` (known to be present) gets new pixels: zoom
/// back to 1 and expanded; its position, opacity and click-through stay.
pub open spec fn after_replace(d: DeckModel, id: u64, image: PayloadModel) -> DeckModel {
    DeckModel {
        images: update_image(
            d.images,
            id,
            |im: ImageModel| ImageModel { image, scale_bits: UNIT_BITS, collapsed: false, ..im },
        ),
        ..d
    }
}

/// The deck after a drag to (x, y): in single mode the shared viewer moves,
/// otherwise the window of image `id` (if it is still pinned).
pub open spec fn after_set_pos(d: DeckModel, id: u64, x: i32, y: i32) -> DeckModel {
    if d.mode == Mode::Single {
        DeckModel { single_pos: Some((x, y)), ..d }
    } else {
        DeckModel {
            images: update_image(d.images, id, |im: ImageModel| ImageModel { pos: Some((x, y)), ..im }),
            ..d
        }
    }
}

/// The deck after closing image `id`: it leaves the deck, and the current
/// index follows the image it pointed at, or steps back when that image was
/// the one closed at the end.
pub open spec fn after_close(d: DeckModel, id: u64) -> DeckModel {
    let i = index_of(d.images, id);
    if i < 0 {
        d
    } else {
        let images = d.images.remove(i);
        let current = if d.current > i || d.current >= images.len() {
            if d.current > 0 {
                d.current - 1
            } else {
                0
            }
        } else {
            d.current
        };
        DeckModel { images, current, ..d }
    }
}

/// The deck after the click-through escape hatch: if any image lets clicks
/// through, none does afterwards; otherwise all do. An empty deck stays.
pub open spec fn after_toggle_all(d: DeckModel) -> DeckModel {
    if d.images.len() == 0 {
        d
    } else {
        let next = !any_click_through(d.images);
        DeckModel {
            images: d.images.map_values(|im: ImageModel| ImageModel { click_through: next, ..im }),
            ..d
        }
    }
}

/// The index `delta` steps from `cur` in a ring of `n` images.
pub open spec fn step_index(cur: int, n: int, delta: int) -> int {
    (cur + delta) % n
}

/// Rust's remainder of a negative number, brought into `[0, m)`, is the
/// Euclidean remainder.
proof fn lemma_negative_mod(s: int, m: int)
    requires
        s < 0,
        m > 0,
    ensures
        s % m == (if (-s) % m == 0 {
            0
        } else {
            m - (-s) % m
        }),
{
    let a = -s;
    let q = a / m;
    let t = a % m;
    vstd::arithmetic::div_mod::lemma_fundamental_div_mod(a, m);
    assert(a == m * q + t);
    if t == 0 {
        assert(s == (-q) * m + 0) by (nonlinear_arith)
            requires
                a == m * q + t,
                t == 0,
                s == -a,
        ;
        vstd::arithmetic::div_mod::lemma_fundamental_div_mod_converse(s, m, -q, 0);
    } else {
        assert(s == (-q - 1) * m + (m - t)) by (nonlinear_arith)
            requires
                a == m * q + t,
                s == -a,
        ;
        vstd::arithmetic::div_mod::lemma_fundamental_div_mod_converse(s, m, -q - 1, m - t);
    }
}

/// In a deck whose ids increase, the lookup by id finds exactly the image
/// that carries it.
pub proof fn lemma_index_of(images: Seq<ImageModel>, id: u64, k: int)
    requires
        0 <= k < images.len(),
        images[k].id == id,
        forall|i: int, j: int|
            0 <= i < j < images.len() ==> #[trigger] images[i].id < #[trigger] images[j].id,
    ensures
        index_of(images, id) == k,
{
    let c = choose|i: int| 0 <= i < images.len() && images[i].id == id;
    assert(0 <= c < images.len() && images[c].id == id);
    if c < k {
        assert(images[c].id < images[k].id);
    } else if c > k {
        assert(images[k].id < images[c].id);
    }
}

impl Default for Deck {
    fn default() -> (d: Self)
        ensures
            d.wf(),
            d@ == initial_deck(),
    {
        let d = Deck {
            images: Vec::new(),
            mode: Mode::All,
            current: 0,
            single_pos: None,
            assign: Vec::new(),
            next_id: 1,
        };
        assert(d@.images =~= Seq::<ImageModel>::empty());
        d
    }
}

impl Deck {
    pub open spec fn wf(&self) -> bool {
        self@.wf()
    }

    /// The empty deck.
    pub fn new() -> (d: Self)
        ensures
            d.wf(),
            d@ == initial_deck(),
    {
        Self::default()
    }

    pub fn len(&self) -> (n: usize)
        ensures
            n == self@.images.len(),
    {
        self.images.len()
    }

    pub fn mode(&self) -> (m: Mode)
        ensures
            m == self@.mode,
    {
        self.mode
    }

    pub fn current(&self) -> (c: usize)
        ensures
            c == self@.current,
    {
        self.current
    }

    pub fn next_id(&self) -> (n: u64)
        ensures
            n == self@.next_id,
    {
        self.next_id
    }

    /// The image at deck index `i`.
    pub fn image(&self, i: usize) -> (im: &DeckImage)
        requires
            i < self@.images.len(),
        ensures
            im@ == self@.images[i as int],
    {
        &self.images[i]
    }
}

/// Deck index of the image with the given id.
pub fn find_index(deck: &Deck, id: u64) -> (r: Option<usize>)
    requires
        deck.wf(),
    ensures
        match r {
            Some(i) => i as int == index_of(deck@.images, id),
            None => index_of(deck@.images, id) == -1,
        },
{
    let mut i: usize = 0;
    while i < deck.images.len()
        invariant
            deck.wf(),
            i <= deck.images.len(),
            forall|j: int| 0 <= j < i ==> #[trigger] deck@.images[j].id != id,
        decreases deck.images.len() - i,
    {
        if deck.images[i].id == id {
            proof {
                assert(deck@.images[i as int].id == id);
                lemma_index_of(deck@.images, id, i as int);
            }
            return Some(i);
        }
        assert(deck@.images[i as int].id != id);
        i = i + 1;
    }
    assert(!exists|j: int| 0 <= j < deck@.images.len() && deck@.images[j].id == id) by {
        assert forall|j: int| 0 <= j < deck@.images.len() implies deck@.images[j].id != id by {}
    }
    None
}

/// Pin `image` as a new image at the end of the deck; it becomes the current
/// one. Refused when the deck already holds a pool's worth of images.
/// Returns the new image's id.
pub fn create_pin_internal(deck: &mut Deck, image: PinImagePayload) -> (r: Result<u64, String>)
    requires
        old(deck).wf(),
        old(deck)@.next_id < u64::MAX,
    ensures
        final(deck).wf(),
        r is Err <==> old(deck)@.images.len() >= POOL,
        match r {
            Ok(id) => id == old(deck)@.next_id && final(deck)@ == after_create(old(deck)@, image@)
                && final(deck)@.images.len() == old(deck)@.images.len() + 1
                && final(deck)@.current == old(deck)@.images.len()
                && final(deck)@.images.last() == (ImageModel {
                id,
                image: image@,
                pos: None,
                scale_bits: 0x3FF0_0000_0000_0000u64,
                opacity_bits: 0x3FF0_0000_0000_0000u64,
                collapsed: false,
                click_through: false,
            }) && final(deck)@.images.drop_last() == old(deck)@.images,
            Err(e) => e@ == "Holding the maximum of 6 images \u{2014} close one first."@
                && final(deck)@ == old(deck)@,
        },
{
    if deck.images.len() >= pool_size() {
        return Err(String::from_str("Holding the maximum of 6 images \u{2014} close one first."));
    }
    let ghost d0 = deck@;
    let ghost p = image@;
    let id = deck.next_id;
    deck.next_id = deck.next_id + 1;
    deck.images.push(
        DeckImage {
            id,
            image,
            pos: None,
            scale_bits: UNIT_BITS,
            opacity_bits: UNIT_BITS,
            collapsed: false,
            click_through: false,
        },
    );
    deck.current = deck.images.len() - 1;
    proof {
        assert(deck@.images =~= d0.images.push(fresh_image(id, p)));
        assert(deck@ == after_create(d0, p));
        crate::laws::law_create_appends_fresh_image(d0, p);
        assert(deck@.images.drop_last() =~= d0.images);
    }
    Ok(id)
}

/// Give the image `id` new pixels. Refused when no image has that id.
pub fn replace_image(deck: &mut Deck, id: u64, image: PinImagePayload) -> (r: Result<(), String>)
    requires
        old(deck).wf(),
    ensures
        final(deck).wf(),
        r is Err <==> index_of(old(deck)@.images, id) < 0,
        match r {
            Ok(_) => final(deck)@ == after_replace(old(deck)@, id, image@) && {
                let i = index_of(old(deck)@.images, id);
                &&& final(deck)@.images.len() == old(deck)@.images.len()
                &&& final(deck)@.images[i] == (ImageModel {
                    image: image@,
                    scale_bits: 0x3FF0_0000_0000_0000u64,
                    collapsed: false,
                    ..old(deck)@.images[i]
                })
                &&& forall|j: int|
                    0 <= j < old(deck)@.images.len() && j != i ==> #[trigger] final(deck)@.images[j]
                        == old(deck)@.images[j]
            },
            Err(e) => e@ == "That image is no longer pinned."@ && final(deck)@ == old(deck)@,
        },
{
    match find_index(deck, id) {
        None => Err(String::from_str("That image is no longer pinned.")),
        Some(i) => {
            let ghost d0 = deck@;
            let ghost p = image@;
            deck.images[i].image = image;
            deck.images[i].scale_bits = UNIT_BITS;
            deck.images[i].collapsed = false;
            proof {
                let f = |im: ImageModel| ImageModel { image: p, scale_bits: UNIT_BITS, collapsed: false, ..im };
                assert(deck@.images =~= d0.images.update(i as int, f(d0.images[i as int])));
                assert(deck@ == after_replace(d0, id, p));
                crate::laws::law_replace_takes_new_payload(d0, id, p);
            }
            Ok(())
        },
    }
}

/// Remember where a window was dragged: the shared viewer in single mode,
/// otherwise the window of image `id`.
pub fn set_image_pos(deck: &mut Deck, id: u64, x: i32, y: i32)
    requires
        old(deck).wf(),
    ensures
        final(deck).wf(),
        final(deck)@ == after_set_pos(old(deck)@, id, x, y),
{
    if deck.mode == Mode::Single {
        deck.single_pos = Some((x, y));
    } else if let Some(i) = find_index(deck, id) {
        let ghost d0 = deck@;
        deck.images[i].pos = Some((x, y));
        proof {
            let f = |im: ImageModel| ImageModel { pos: Some((x, y)), ..im };
            assert(deck@.images =~= d0.images.update(i as int, f(d0.images[i as int])));
        }
    }
}

/// Set the zoom (an `f64` bit pattern) of image `id`, if it is pinned.
pub fn set_image_scale(deck: &mut Deck, id: u64, scale_bits: u64)
    requires
        old(deck).wf(),
    ensures
        final(deck).wf(),
        final(deck)@ == (DeckModel {
            images: update_image(
                old(deck)@.images,
                id,
                |im: ImageModel| ImageModel { scale_bits, ..im },
            ),
            ..old(deck)@
        }),
{
    if let Some(i) = find_index(deck, id) {
        let ghost d0 = deck@;
        deck.images[i].scale_bits = scale_bits;
        proof {
            let f = |im: ImageModel| ImageModel { scale_bits, ..im };
            assert(deck@.images =~= d0.images.update(i as int, f(d0.images[i as int])));
        }
    }
}

/// Set the opacity (an `f64` bit pattern) of image `id`, if it is pinned.
pub fn set_image_opacity(deck: &mut Deck, id: u64, opacity_bits: u64)
    requires
        old(deck).wf(),
    ensures
        final(deck).wf(),
        final(deck)@ == (DeckModel {
            images: update_image(
                old(deck)@.images,
                id,
                |im: ImageModel| ImageModel { opacity_bits, ..im },
            ),
            ..old(deck)@
        }),
{
    if let Some(i) = find_index(deck, id) {
        let ghost d0 = deck@;
        deck.images[i].opacity_bits = opacity_bits;
        proof {
            let f = |im: ImageModel| ImageModel { opacity_bits, ..im };
            assert(deck@.images =~= d0.images.update(i as int, f(d0.images[i as int])));
        }
    }
}

/// Collapse or expand image `id`, if it is pinned.
pub fn set_image_collapsed(deck: &mut Deck, id: u64, collapsed: bool)
    requires
        old(deck).wf(),
    ensures
        final(deck).wf(),
        final(deck)@ == (DeckModel {
            images: update_image(
                old(deck)@.images,
                id,
                |im: ImageModel| ImageModel { collapsed, ..im },
            ),
            ..old(deck)@
        }),
{
    if let Some(i) = find_index(deck, id) {
        let ghost d0 = deck@;
        deck.images[i].collapsed = collapsed;
        proof {
            let f = |im: ImageModel| ImageModel { collapsed, ..im };
            assert(deck@.images =~= d0.images.update(i as int, f(d0.images[i as int])));
        }
    }
}

/// Let clicks pass through the window of image `id` (or not), if it is pinned.
pub fn set_image_click_through(deck: &mut Deck, id: u64, ignore: bool)
    requires
        old(deck).wf(),
    ensures
        final(deck).wf(),
        final(deck)@ == (DeckModel {
            images: update_image(
                old(deck)@.images,
                id,
                |im: ImageModel| ImageModel { click_through: ignore, ..im },
            ),
            ..old(deck)@
        }),
{
    if let Some(i) = find_index(deck, id) {
        let ghost d0 = deck@;
        deck.images[i].click_through = ignore;
        proof {
            let f = |im: ImageModel| ImageModel { click_through: ignore, ..im };
            assert(deck@.images =~= d0.images.update(i as int, f(d0.images[i as int])));
        }
    }
}

/// Unpin image `id`, if it is pinned.
pub fn close_image(deck: &mut Deck, id: u64)
    requires
        old(deck).wf(),
    ensures
        final(deck).wf(),
        final(deck)@ == after_close(old(deck)@, id),
        old(deck)@.images.len() > 0 && id == old(deck)@.images[old(deck)@.current].id ==> {
            &&& final(deck)@.images.len() == old(deck)@.images.len() - 1
            &&& (old(deck)@.current + 1 < old(deck)@.images.len() ==> final(deck)@.current == old(
                deck,
            )@.current)
            &&& (old(deck)@.current + 1 == old(deck)@.images.len() && old(deck)@.current > 0
                ==> final(deck)@.current == old(deck)@.current - 1)
        },
{
    proof {
        if old(deck)@.images.len() > 0 {
            crate::laws::law_close_current_moves_to_neighbour(old(deck)@);
        }
    }
    if let Some(i) = find_index(deck, id) {
        let ghost d0 = deck@;
        deck.images.remove(i);
        if deck.current > i || deck.current >= deck.images.len() {
            deck.current = deck.current.saturating_sub(1);
        }
        proof {
            assert(deck@.images =~= d0.images.remove(i as int));
            let n = d0.images.len();
            assert forall|a: int, b: int| 0 <= a < b < deck@.images.len() implies
                #[trigger] deck@.images[a].id < #[trigger] deck@.images[b].id by {
                if a < i {
                    if b < i {
                        assert(d0.images[a].id < d0.images[b].id);
                    } else {
                        assert(d0.images[a].id < d0.images[b + 1].id);
                    }
                } else {
                    assert(d0.images[a + 1].id < d0.images[b + 1].id);
                }
            }
            assert forall|a: int| 0 <= a < deck@.images.len() implies
                #[trigger] deck@.images[a].id < deck@.next_id by {
                if a < i {
                    assert(d0.images[a].id < d0.next_id);
                } else {
                    assert(d0.images[a + 1].id < d0.next_id);
                }
            }
        }
    }
}

/// Unpin every image.
pub fn close_all_pins(deck: &mut Deck)
    requires
        old(deck).wf(),
    ensures
        final(deck).wf(),
        final(deck)@ == (DeckModel { images: Seq::empty(), current: 0, ..old(deck)@ }),
{
    deck.images.clear();
    deck.current = 0;
    assert(deck@.images =~= Seq::<ImageModel>::empty());
}

/// The click-through escape hatch. Returns whether the deck had any image
/// (and so whether the windows need a new render).
pub fn toggle_click_through_all_internal(deck: &mut Deck) -> (changed: bool)
    requires
        old(deck).wf(),
    ensures
        final(deck).wf(),
        changed == (old(deck)@.images.len() > 0),
        final(deck)@ == after_toggle_all(old(deck)@),
{
    if deck.images.len() == 0 {
        return false;
    }
    let ghost d0 = deck@;
    let mut any_on = false;
    let mut i: usize = 0;
    while i < deck.images.len()
        invariant
            deck@ == d0,
            i <= deck.images.len(),
            any_on <==> exists|j: int| 0 <= j < i && #[trigger] d0.images[j].click_through,
        decreases deck.images.len() - i,
    {
        if deck.images[i].click_through {
            any_on = true;
        }
        assert(d0.images[i as int].click_through == deck.images[i as int].click_through);
        i = i + 1;
    }
    assert(any_on == any_click_through(d0.images));
    let next = !any_on;
    let mut k: usize = 0;
    while k < deck.images.len()
        invariant
            d0.wf(),
            d0.images.len() > 0,
            k <= deck.images.len(),
            deck.images.len() == d0.images.len(),
            deck@.mode == d0.mode,
            deck@.current == d0.current,
            deck@.single_pos == d0.single_pos,
            deck@.assign == d0.assign,
            deck@.next_id == d0.next_id,
            forall|j: int|
                0 <= j < k ==> #[trigger] deck@.images[j] == (ImageModel {
                    click_through: next,
                    ..d0.images[j]
                }),
            forall|j: int| k <= j < deck.images.len() ==> #[trigger] deck@.images[j] == d0.images[j],
        decreases deck.images.len() - k,
    {
        let ghost before = deck@;
        deck.images[k].click_through = next;
        assert(deck@.images =~= before.images.update(
            k as int,
            ImageModel { click_through: next, ..before.images[k as int] },
        ));
        k = k + 1;
    }
    proof {
        let f = |im: ImageModel| ImageModel { click_through: next, ..im };
        assert(deck@.images =~= d0.images.map_values(f));
        assert(deck@ == after_toggle_all(d0));
    }
    true
}

/// Switch between showing all images (`all`) and the single-image viewer.
pub fn set_mode(deck: &mut Deck, all: bool)
    requires
        old(deck).wf(),
    ensures
        final(deck).wf(),
        final(deck)@ == (DeckModel {
            mode: if all {
                Mode::All
            } else {
                Mode::Single
            },
            ..old(deck)@
        }),
{
    deck.mode = if all {
        Mode::All
    } else {
        Mode::Single
    };
}

/// Move the current image `delta` steps around the ring of images. Returns
/// `None` on an empty deck (nothing changes), else whether the deck is in
/// single mode (the viewer then wants the keyboard focus back).
pub fn deck_step(deck: &mut Deck, delta: i32) -> (r: Option<bool>)
    requires
        old(deck).wf(),
        i32::MIN <= old(deck)@.current + delta <= i32::MAX,
    ensures
        final(deck).wf(),
        old(deck)@.images.len() == 0 ==> r is None && final(deck)@ == old(deck)@,
        old(deck)@.images.len() > 0 ==> r == Some(old(deck)@.mode == Mode::Single) && final(deck)@
            == (DeckModel {
            current: step_index(old(deck)@.current, old(deck)@.images.len() as int, delta as int),
            ..old(deck)@
        }),
{
    let n = deck.images.len();
    if n == 0 {
        return None;
    }
    let cur = deck.current as i32;
    let m = n as i32;
    let s = cur + delta;
    let r = s % m;
    let next = if r < 0 {
        r + m
    } else {
        r
    };
    proof {
        if s < 0 {
            lemma_negative_mod(s as int, m as int);
        }
    }
    assert(next as int == (cur as int + delta as int) % (m as int));
    deck.current = next as usize;
    Some(deck.mode == Mode::Single)
}

} // verus!
