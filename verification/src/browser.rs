//! Browsers, from a pool made at startup and handed out to tabs.
//!
//! A browser cannot be created once the app is running, so there is a fixed
//! number of them and the only question is who gets one. A tab past the last
//! one still works; it shows a note in place of a page.
use crate::text::{
    ascii_alphanumeric, begins_with, copy_text, decimal, has_char, law_beginnings_and_ends,
    law_occurring_means_in_between, law_trimmed_text_stays, lemma_decimal_injective, occurs_in, push_decimal,
    same_text, text_begins_with, text_contains, to_chars, trim, trimmed, white_space,
};
use vstd::prelude::*;
use vstd::utf8::encode_utf8;

verus! {

/// How many pages can be open at once, across all terminals.
pub const POOL_SIZE: usize = 12;

/// One open page. The number is the window's to invent.
pub type TabId = u32;

/// A page that starts or finishes loading, named by its tab.
#[derive(Clone, Copy, PartialEq, Eq, Debug, Structural)]
pub struct Loading {
    pub tab: TabId,
    pub loading: bool,
}

/// A rectangle on the screen, in whole pixels: left, top, width, height.
#[derive(Clone, Copy, PartialEq, Eq, Debug, Structural)]
pub struct Place {
    pub x: i64,
    pub y: i64,
    pub width: i64,
    pub height: i64,
}

/// The name of the browser in a slot.
pub fn slot_label(slot: usize) -> (out: String)
    ensures
        out@ == "browser-"@ + decimal(slot as nat),
{
    let mut out = copy_text("browser-");
    push_decimal(&mut out, slot as u64);
    out
}

// ---- the pool -------------------------------------------------------------------

/// Which tab owns which slot, and which slot is over the panel.
pub struct Pool {
    slots: Vec<Option<TabId>>,
    /// The address of the new-tab page, learned at startup.
    home: Option<String>,
    placed: Option<usize>,
    placed_at: Option<Place>,
}

/// A [`Pool`] as mathematics.
#[verifier::ext_equal]
pub struct PoolModel {
    pub slots: Seq<Option<TabId>>,
    pub home: Option<Seq<char>>,
    pub placed: Option<usize>,
    pub placed_at: Option<Place>,
}

impl View for Pool {
    type V = PoolModel;

    closed spec fn view(&self) -> PoolModel {
        PoolModel {
            slots: self.slots@,
            home: match self.home {
                Some(h) => Some(h@),
                None => None,
            },
            placed: self.placed,
            placed_at: self.placed_at,
        }
    }
}

/// What a layout moves: at most one browser away, and one over the panel.
#[derive(Clone, Copy, PartialEq, Eq, Debug, Structural)]
pub struct Moves {
    pub park: Option<usize>,
    pub place: Option<usize>,
}

impl PoolModel {
    /// Every slot is there, and no tab has two.
    pub open spec fn wf(self) -> bool {
        &&& self.slots.len() == POOL_SIZE
        &&& forall|i: int, j: int|
            0 <= i < j < self.slots.len() && (#[trigger] self.slots[i]) is Some ==> self.slots[i]
                != (#[trigger] self.slots[j])
    }

    /// The slot of a tab, from the `i`-th on.
    pub open spec fn slot_from(self, tab: TabId, i: int) -> Option<int>
        decreases self.slots.len() - i,
    {
        if i >= self.slots.len() {
            None
        } else if self.slots[i] == Some(tab) {
            Some(i)
        } else {
            self.slot_from(tab, i + 1)
        }
    }

    /// The first free slot, from the `i`-th on.
    pub open spec fn free_from(self, i: int) -> Option<int>
        decreases self.slots.len() - i,
    {
        if i >= self.slots.len() {
            None
        } else if self.slots[i] is None {
            Some(i)
        } else {
            self.free_from(i + 1)
        }
    }

    /// The slot that a tab gets: its own, or the first free one.
    pub open spec fn slot_for(self, tab: TabId) -> Option<int> {
        match self.slot_from(tab, 0) {
            Some(i) => Some(i),
            None => self.free_from(0),
        }
    }

    pub open spec fn assigned(self, tab: TabId) -> PoolModel {
        match self.slot_for(tab) {
            Some(i) => PoolModel { slots: self.slots.update(i, Some(tab)), ..self },
            None => self,
        }
    }

    pub open spec fn released(self, tab: TabId) -> PoolModel {
        match self.slot_from(tab, 0) {
            Some(i) => PoolModel { slots: self.slots.update(i, None), ..self },
            None => self,
        }
    }

    /// The address is that of the new-tab page.
    pub open spec fn at_home(self, url: Seq<char>) -> bool {
        occurs_in(url, "newtab.html"@) || self.home == Some(url)
    }

    /// The slot that is to be over the panel; a panel without an area shows none.
    pub open spec fn wanted(self, active: Option<usize>, visible: bool) -> Option<usize> {
        if visible {
            active
        } else {
            None
        }
    }

    /// What a layout moves. One that changes nothing moves nothing.
    pub open spec fn moves(self, active: Option<usize>, visible: bool, at: Place) -> Moves {
        let wanted = self.wanted(active, visible);
        if self.placed == wanted && self.placed_at == Some(at) {
            Moves { park: None, place: None }
        } else {
            Moves {
                park: if self.placed != wanted {
                    self.placed
                } else {
                    None
                },
                place: wanted,
            }
        }
    }

    pub open spec fn laid_out(self, active: Option<usize>, visible: bool, at: Place) -> PoolModel {
        let wanted = self.wanted(active, visible);
        if self.placed == wanted && self.placed_at == Some(at) {
            self
        } else {
            PoolModel {
                placed: wanted,
                placed_at: if wanted is Some {
                    Some(at)
                } else {
                    None
                },
                ..self
            }
        }
    }
}

impl Default for Pool {
    fn default() -> (p: Self)
        ensures
            p@ == (PoolModel {
                slots: Seq::new(POOL_SIZE as nat, |i: int| None),
                home: None,
                placed: None,
                placed_at: None,
            }),
            p@.wf(),
    {
        let mut slots: Vec<Option<TabId>> = Vec::new();
        let mut i: usize = 0;
        while i < POOL_SIZE
            invariant
                i <= POOL_SIZE,
                slots@ == Seq::new(i as nat, |k: int| None::<TabId>),
            decreases POOL_SIZE - i,
        {
            slots.push(None);
            i += 1;
            assert(slots@ =~= Seq::new(i as nat, |k: int| None::<TabId>));
        }
        let p = Pool { slots, home: None, placed: None, placed_at: None };
        assert(p@ =~= PoolModel {
            slots: Seq::new(POOL_SIZE as nat, |i: int| None),
            home: None,
            placed: None,
            placed_at: None,
        });
        p
    }
}

impl Pool {
    pub fn set_home(&mut self, url: String)
        requires
            old(self)@.wf(),
        ensures
            final(self)@ == (PoolModel { home: Some(url@), ..old(self)@ }),
            final(self)@.wf(),
    {
        self.home = Some(url);
        assert(self@ =~= PoolModel { home: Some(url@), ..old(self)@ });
    }

    pub fn home(&self) -> (res: Option<&str>)
        ensures
            res is Some <==> self@.home is Some,
            res matches Some(s) ==> self@.home == Some(s@),
    {
        match &self.home {
            Some(h) => Some(h.as_str()),
            None => None,
        }
    }

    /// Whether an address is that of the new-tab page, so that the bar can stay
    /// empty.
    pub fn is_home(&self, url: &str) -> (res: bool)
        ensures
            res == self@.at_home(url@),
    {
        if text_contains(url, "newtab.html") {
            return true;
        }
        match &self.home {
            Some(h) => same_text(h.as_str(), url),
            None => false,
        }
    }

    /// The slot of a tab.
    pub fn slot_of(&self, tab: TabId) -> (res: Option<usize>)
        ensures
            res is Some <==> self@.slot_from(tab, 0) is Some,
            res matches Some(i) ==> self@.slot_from(tab, 0) == Some(i as int) && i
                < self@.slots.len() && self@.slots[i as int] == Some(tab),
    {
        let mut i: usize = 0;
        while i < self.slots.len()
            invariant
                i <= self.slots@.len(),
                self@.slot_from(tab, i as int) == self@.slot_from(tab, 0),
            decreases self.slots@.len() - i,
        {
            match self.slots[i] {
                Some(t) => {
                    if t == tab {
                        return Some(i);
                    }
                },
                None => {},
            }
            i += 1;
        }
        None
    }

    fn free_slot(&self) -> (res: Option<usize>)
        ensures
            res is Some <==> self@.free_from(0) is Some,
            res matches Some(i) ==> self@.free_from(0) == Some(i as int) && i < self@.slots.len()
                && self@.slots[i as int] is None,
    {
        let mut i: usize = 0;
        while i < self.slots.len()
            invariant
                i <= self.slots@.len(),
                self@.free_from(i as int) == self@.free_from(0),
            decreases self.slots@.len() - i,
        {
            if self.slots[i].is_none() {
                return Some(i);
            }
            i += 1;
        }
        None
    }

    /// Give a tab a slot, or `None` where every browser is taken.
    pub fn assign(&mut self, tab: TabId) -> (res: Option<usize>)
        requires
            old(self)@.wf(),
        ensures
            final(self)@ == old(self)@.assigned(tab),
            final(self)@.wf(),
            res is Some <==> old(self)@.slot_for(tab) is Some,
            res matches Some(i) ==> old(self)@.slot_for(tab) == Some(i as int),
    {
        match self.slot_of(tab) {
            Some(i) => {
                assert(self@.slots.update(i as int, Some(tab)) =~= self@.slots);
                return Some(i);
            },
            None => {},
        }
        match self.free_slot() {
            Some(i) => {
                proof {
                    lemma_no_slot(self@, tab, 0);
                }
                self.slots.set(i, Some(tab));
                assert(self@ =~= old(self)@.assigned(tab));
                Some(i)
            },
            None => None,
        }
    }

    /// The tab that a slot belongs to.
    pub fn tab_of(&self, slot: usize) -> (res: Option<TabId>)
        ensures
            res == (if slot < self@.slots.len() {
                self@.slots[slot as int]
            } else {
                None
            }),
    {
        if slot < self.slots.len() {
            self.slots[slot]
        } else {
            None
        }
    }

    /// Take the slot of a tab back.
    pub fn release(&mut self, tab: TabId) -> (res: Option<usize>)
        requires
            old(self)@.wf(),
        ensures
            final(self)@ == old(self)@.released(tab),
            final(self)@.wf(),
            res is Some <==> old(self)@.slot_from(tab, 0) is Some,
            res matches Some(i) ==> old(self)@.slot_from(tab, 0) == Some(i as int),
    {
        match self.slot_of(tab) {
            Some(i) => {
                self.slots.set(i, None);
                assert(self@ =~= old(self)@.released(tab));
                Some(i)
            },
            None => None,
        }
    }

    /// Whether every browser is taken.
    pub fn is_full(&self) -> (full: bool)
        ensures
            full == (self@.free_from(0) is None),
    {
        self.free_slot().is_none()
    }

    /// Put a browser over the panel, and say what has to be moved for it.
    pub fn layout(&mut self, active_slot: Option<usize>, visible: bool, at: Place) -> (moves: Moves)
        requires
            old(self)@.wf(),
        ensures
            final(self)@ == old(self)@.laid_out(active_slot, visible, at),
            final(self)@.wf(),
            moves == old(self)@.moves(active_slot, visible, at),
    {
        let wanted = if visible {
            active_slot
        } else {
            None
        };
        if self.placed == wanted && self.placed_at == Some(at) {
            return Moves { park: None, place: None };
        }
        let park = if self.placed != wanted {
            self.placed
        } else {
            None
        };
        self.placed = wanted;
        self.placed_at =
        if wanted.is_some() {
            Some(at)
        } else {
            None
        };
        assert(self@ =~= old(self)@.laid_out(active_slot, visible, at));
        Moves { park, place: wanted }
    }

    /// Forget where the browser was put, so that the next layout puts it there
    /// again: a slot that changes hands would else keep the last tab's page.
    pub fn forget_placement(&mut self)
        requires
            old(self)@.wf(),
        ensures
            final(self)@ == (PoolModel { placed_at: None, ..old(self)@ }),
            final(self)@.wf(),
    {
        self.placed_at = None;
        assert(self@ =~= PoolModel { placed_at: None, ..old(self)@ });
    }
}

proof fn lemma_no_slot(p: PoolModel, tab: TabId, i: int)
    requires
        0 <= i <= p.slots.len(),
        p.slot_from(tab, i) is None,
    ensures
        forall|k: int| i <= k < p.slots.len() ==> #[trigger] p.slots[k] != Some(tab),
    decreases p.slots.len() - i,
{
    if i < p.slots.len() {
        lemma_no_slot(p, tab, i + 1);
    }
}

// ---- addresses ------------------------------------------------------------------

/// The byte stands for itself in an address.
pub open spec fn unreserved(b: u8) -> bool {
    ||| 0x41 <= b <= 0x5a
    ||| 0x61 <= b <= 0x7a
    ||| 0x30 <= b <= 0x39
    ||| b == 0x2d
    ||| b == 0x5f
    ||| b == 0x2e
    ||| b == 0x7e
}

/// A hexadecimal digit, in capitals.
pub open spec fn hex_digit(n: int) -> char {
    (if n < 10 {
        48 + n
    } else {
        55 + n
    }) as char
}

/// One byte as it stands in a query.
pub open spec fn encoded_byte(b: u8) -> Seq<char> {
    if unreserved(b) {
        seq![b as char]
    } else if b == 0x20 {
        seq!['+']
    } else {
        seq!['%', hex_digit(b as int / 16), hex_digit(b as int % 16)]
    }
}

/// The first `n` bytes as they stand in a query.
pub open spec fn encoded(bytes: Seq<u8>, n: int) -> Seq<char>
    decreases n,
{
    if n <= 0 {
        Seq::empty()
    } else {
        encoded(bytes, n - 1) + encoded_byte(bytes[n - 1])
    }
}

fn push_hex(out: &mut String, d: u8)
    requires
        d < 16,
    ensures
        final(out)@ == old(out)@.push(hex_digit(d as int)),
{
    if d < 10 {
        out.push((48 + d) as char);
    } else {
        out.push((55 + d) as char);
    }
}

/// A text as it stands in a query.
pub fn urlencode(s: &str) -> (out: String)
    ensures
        out@ == encoded(encode_utf8(s@), encode_utf8(s@).len() as int),
{
    let bytes = s.as_bytes();
    let mut out = String::new();
    let mut i: usize = 0;
    while i < bytes.len()
        invariant
            i <= bytes@.len(),
            bytes@ == encode_utf8(s@),
            out@ == encoded(bytes@, i as int),
        decreases bytes@.len() - i,
    {
        let b = bytes[i];
        let ghost before = out@;
        if (0x41 <= b && b <= 0x5a) || (0x61 <= b && b <= 0x7a) || (0x30 <= b && b <= 0x39) || b
            == 0x2d || b == 0x5f || b == 0x2e || b == 0x7e {
            out.push(b as char);
        } else if b == 0x20 {
            out.push('+');
        } else {
            out.push('%');
            push_hex(&mut out, b / 16);
            push_hex(&mut out, b % 16);
        }
        assert(out@ =~= before + encoded_byte(b));
        i += 1;
    }
    out
}

/// An address that says how it is to be reached.
pub open spec fn has_scheme(t: Seq<char>) -> bool {
    begins_with(t, "http://"@) || begins_with(t, "https://"@) || begins_with(t, "file://"@)
        || begins_with(t, "about:"@)
}

/// Where what was typed into the bar leads: an address as it is, a bare host
/// under https, anything else to a search, and nothing nowhere.
pub open spec fn destination(input: Seq<char>) -> Option<Seq<char>> {
    let t = trim(input);
    if t.len() == 0 {
        None
    } else if has_scheme(t) {
        Some(t)
    } else if !t.contains(' ') && t.contains('.') {
        Some("https://"@ + t)
    } else {
        let bytes = encode_utf8(t);
        Some("https://duckduckgo.com/?q="@ + encoded(bytes, bytes.len() as int))
    }
}

/// Take what people actually type.
pub fn normalise_url(input: &str) -> (res: Option<String>)
    ensures
        res is Some <==> destination(input@) is Some,
        res matches Some(s) ==> destination(input@) == Some(s@),
{
    let t = trimmed(input);
    let v = to_chars(t.as_str());
    let n: usize = v.len();
    assert(v@.subrange(0, n as int) =~= t@);
    if n == 0 {
        return None;
    }
    let s = t.as_str();
    if text_begins_with(s, "http://") || text_begins_with(s, "https://") || text_begins_with(
        s,
        "file://",
    ) || text_begins_with(s, "about:") {
        return Some(t);
    }
    if !has_char(&v, 0, n, ' ') && has_char(&v, 0, n, '.') {
        let mut out = copy_text("https://");
        out.push_str(s);
        Some(out)
    } else {
        let mut out = copy_text("https://duckduckgo.com/?q=");
        out.push_str(urlencode(s).as_str());
        Some(out)
    }
}

// ---- laws -----------------------------------------------------------------------

proof fn lemma_slot_from(p: PoolModel, tab: TabId, i: int, at: int)
    requires
        0 <= i <= at < p.slots.len(),
        p.slots[at] == Some(tab),
        forall|k: int| i <= k < at ==> #[trigger] p.slots[k] != Some(tab),
    ensures
        p.slot_from(tab, i) == Some(at),
    decreases at - i,
{
    if i < at {
        lemma_slot_from(p, tab, i + 1, at);
    }
}

proof fn lemma_found(p: PoolModel, tab: TabId, i: int)
    requires
        0 <= i <= p.slots.len(),
    ensures
        p.slot_from(tab, i) matches Some(k) ==> i <= k < p.slots.len() && p.slots[k] == Some(tab),
        p.free_from(i) matches Some(k) ==> i <= k < p.slots.len() && p.slots[k] is None,
    decreases p.slots.len() - i,
{
    if i < p.slots.len() {
        lemma_found(p, tab, i + 1);
    }
}

/// Asking twice gives the same browser, and the second time changes nothing.
pub proof fn law_asking_twice_gives_the_same(p: PoolModel, tab: TabId)
    requires
        p.wf(),
        p.slot_for(tab) is Some,
    ensures
        p.assigned(tab).slot_from(tab, 0) == p.slot_for(tab),
        p.assigned(tab).assigned(tab) == p.assigned(tab),
        p.assigned(tab).wf(),
{
    lemma_found(p, tab, 0);
    let i = p.slot_for(tab).unwrap();
    let after = p.assigned(tab);
    if p.slot_from(tab, 0) is None {
        lemma_no_slot(p, tab, 0);
    }
    assert forall|k: int| 0 <= k < i implies #[trigger] after.slots[k] != Some(tab) by {
        assert(after.slots[k] == p.slots[k]);
        if p.slot_from(tab, 0) is Some && p.slots[k] == Some(tab) {
            assert(p.slots[k] != p.slots[i]);
        }
    }
    lemma_slot_from(after, tab, 0, i);
    assert(after.assigned(tab) =~= after);
    assert forall|a: int, b: int|
        0 <= a < b < after.slots.len() && (#[trigger] after.slots[a]) is Some implies after.slots[a]
        != (#[trigger] after.slots[b]) by {
        if a != i && b != i {
            assert(p.slots[a] != p.slots[b]);
        } else if p.slot_from(tab, 0) is Some {
            assert(p.slots[a] != p.slots[b]);
        }
    }
}

/// A tab that asks takes no browser from another: every other tab keeps its
/// own.
pub proof fn law_no_browser_is_stolen(p: PoolModel, tab: TabId, k: int)
    requires
        p.wf(),
        0 <= k < p.slots.len(),
        p.slots[k] is Some,
    ensures
        p.assigned(tab).slots[k] == p.slots[k],
{
    lemma_found(p, tab, 0);
}

/// With every browser taken, a new tab gets none and nothing changes.
pub proof fn law_running_out_is_reported(p: PoolModel, tab: TabId)
    requires
        p.free_from(0) is None,
        p.slot_from(tab, 0) is None,
    ensures
        p.slot_for(tab) is None,
        p.assigned(tab) == p,
{
}

proof fn lemma_free_from(p: PoolModel, i: int, at: int)
    requires
        0 <= i <= at < p.slots.len(),
        p.slots[at] is None,
    ensures
        p.free_from(i) matches Some(k) && i <= k <= at,
    decreases at - i,
{
    if i < at && !(p.slots[i] is None) {
        lemma_free_from(p, i + 1, at);
    }
}

/// What a tab gives back is free again, and the tab has none.
pub proof fn law_released_browsers_are_free(p: PoolModel, tab: TabId)
    requires
        p.wf(),
        p.slot_from(tab, 0) is Some,
    ensures
        p.released(tab).slot_from(tab, 0) is None,
        p.released(tab).free_from(0) matches Some(k) && k <= p.slot_from(tab, 0).unwrap(),
        p.released(tab).wf(),
{
    lemma_found(p, tab, 0);
    let i = p.slot_from(tab, 0).unwrap();
    let after = p.released(tab);
    lemma_found(after, tab, 0);
    if let Some(k) = after.slot_from(tab, 0) {
        assert(p.slots[k] == Some(tab));
        if k < i {
            assert(p.slots[k] != p.slots[i]);
        } else if k > i {
            assert(p.slots[i] != p.slots[k]);
        }
    }
    lemma_free_from(after, 0, i);
    assert forall|a: int, b: int|
        0 <= a < b < after.slots.len() && (#[trigger] after.slots[a]) is Some implies after.slots[a]
        != (#[trigger] after.slots[b]) by {
        assert(p.slots[a] != p.slots[b]);
    }
}

/// A layout that repeats the last one moves nothing.
pub proof fn law_a_repeated_layout_moves_nothing(
    p: PoolModel,
    active: Option<usize>,
    visible: bool,
    at: Place,
)
    requires
        p.wanted(active, visible) is Some,
    ensures
        p.laid_out(active, visible, at).moves(active, visible, at) == (Moves {
            park: None,
            place: None,
        }),
{
}

/// A slot that changed hands is put in place again, even at the same spot.
pub proof fn law_forgetting_places_again(p: PoolModel, slot: usize, at: Place)
    ensures
        (PoolModel { placed_at: None, ..p }).moves(Some(slot), true, at).place == Some(slot),
{
}

/// Slots have different names.
pub proof fn law_labels_are_unique(a: nat, b: nat)
    requires
        "browser-"@ + decimal(a) == "browser-"@ + decimal(b),
    ensures
        a == b,
{
    let prefix = "browser-"@;
    assert((prefix + decimal(a)).skip(prefix.len() as int) =~= decimal(a));
    assert((prefix + decimal(b)).skip(prefix.len() as int) =~= decimal(b));
    lemma_decimal_injective(a, b);
}

/// A query holds nothing that an address could not: letters, digits and
/// `-_.~+%` alone.
pub proof fn law_queries_are_clean(bytes: Seq<u8>, n: int, i: int)
    requires
        0 <= n <= bytes.len(),
        0 <= i < encoded(bytes, n).len(),
    ensures
        ({
            let c = encoded(bytes, n)[i];
            ascii_alphanumeric(c) || c == '-' || c == '_' || c == '.' || c == '~' || c == '+' || c
                == '%'
        }),
    decreases n,
{
    if n > 0 {
        let before = encoded(bytes, n - 1);
        if i < before.len() {
            law_queries_are_clean(bytes, n - 1, i);
        } else {
            let b = bytes[n - 1];
            assert(encoded(bytes, n)[i] == encoded_byte(b)[i - before.len()]);
        }
    }
}

/// The text needs no trimming.
pub open spec fn is_trimmed(t: Seq<char>) -> bool {
    t.len() > 0 && !white_space(t[0]) && !white_space(t.last())
}

/// An address that says how it is to be reached leads to itself: `http://`,
/// `https://`, `file://` and `about:` all do.
pub proof fn law_addresses_lead_to_themselves(rest: Seq<char>)
    ensures
        is_trimmed("http://"@ + rest) ==> destination("http://"@ + rest) == Some("http://"@ + rest),
        is_trimmed("https://"@ + rest) ==> destination("https://"@ + rest) == Some(
            "https://"@ + rest,
        ),
        is_trimmed("file://"@ + rest) ==> destination("file://"@ + rest) == Some("file://"@ + rest),
        is_trimmed("about:"@ + rest) ==> destination("about:"@ + rest) == Some("about:"@ + rest),
{
    law_beginnings_and_ends("http://"@, rest);
    law_beginnings_and_ends("https://"@, rest);
    law_beginnings_and_ends("file://"@, rest);
    law_beginnings_and_ends("about:"@, rest);
    law_trimmed_text_stays("http://"@ + rest, ' ');
    law_trimmed_text_stays("https://"@ + rest, ' ');
    law_trimmed_text_stays("file://"@ + rest, ' ');
    law_trimmed_text_stays("about:"@ + rest, ' ');
}

/// A bare host is reached under https; other text, which holds a blank or no dot,
/// is searched for; and what is nothing but white space leads nowhere. White
/// space around what was typed makes no difference.
pub proof fn law_hosts_and_searches(input: Seq<char>)
    ensures
        ({
            let t = trim(input);
            let address = begins_with(t, "http://"@) || begins_with(t, "https://"@) || begins_with(
                t,
                "file://"@,
            ) || begins_with(t, "about:"@);
            &&& destination(input) is None <==> t.len() == 0
            &&& destination(input) == destination(t)
            &&& address ==> destination(input) == Some(t)
            &&& !address && t.contains('.') && !t.contains(' ') ==> destination(input) == Some(
                "https://"@ + t,
            )
            &&& t.len() > 0 && !address && (t.contains(' ') || !t.contains('.')) ==> (destination(
                input,
            ) matches Some(url) && begins_with(url, "https://duckduckgo.com/?q="@))
        }),
{
    reveal_strlit("http://");
    reveal_strlit("https://");
    reveal_strlit("file://");
    reveal_strlit("about:");
    crate::text::lemma_trim_idempotent(input);
    let t = trim(input);
    let bytes = encode_utf8(t);
    law_beginnings_and_ends("https://duckduckgo.com/?q="@, encoded(bytes, bytes.len() as int));
}

proof fn lemma_encoded_is_solid(bytes: Seq<u8>, n: int)
    requires
        0 <= n <= bytes.len(),
    ensures
        forall|i: int| 0 <= i < encoded(bytes, n).len() ==> !white_space(#[trigger] encoded(bytes, n)[i]),
{
    assert forall|i: int| 0 <= i < encoded(bytes, n).len() implies !white_space(
        #[trigger] encoded(bytes, n)[i],
    ) by {
        law_queries_are_clean(bytes, n, i);
    }
}

/// Where something leads, leads to itself: what the bar shows after a page was
/// opened opens the same page again.
pub proof fn law_a_destination_leads_to_itself(input: Seq<char>)
    ensures
        destination(input) matches Some(url) ==> destination(url) == Some(url),
{
    let t = trim(input);
    crate::text::lemma_trim_idempotent(input);
    crate::text::law_trimming_cuts_white_space_alone(input);
    if t.len() > 0 {
        reveal_strlit("https://");
        reveal_strlit("https://duckduckgo.com/?q=");
        let url = destination(input).unwrap();
        if has_scheme(t) {
            assert(url == t);
        } else if !t.contains(' ') && t.contains('.') {
            assert(url.last() == t.last());
            assert(url[0] == 'h');
            law_addresses_lead_to_themselves(t);
        } else {
            let bytes = encode_utf8(t);
            let q = encoded(bytes, bytes.len() as int);
            let head = "https://duckduckgo.com/?q="@;
            let rest = head.skip(8) + q;
            assert(url =~= "https://"@ + rest);
            lemma_encoded_is_solid(bytes, bytes.len() as int);
            if q.len() > 0 {
                assert(url.last() == q[q.len() - 1]);
            } else {
                assert(url =~= head);
                assert(url.last() == '=');
            }
            assert(url[0] == 'h');
            law_addresses_lead_to_themselves(rest);
        }
    }
}

/// The number that a hexadecimal digit stands for.
pub open spec fn hex_value(c: char) -> int {
    if '0' <= c <= '9' {
        c as int - 48
    } else {
        c as int - 55
    }
}

/// The bytes that a query stands for.
pub open spec fn query_bytes(q: Seq<char>) -> Seq<u8>
    decreases q.len(),
{
    if q.len() == 0 {
        Seq::empty()
    } else if q[0] == '%' && q.len() >= 3 {
        seq![(hex_value(q[1]) * 16 + hex_value(q[2])) as u8] + query_bytes(q.skip(3))
    } else if q[0] == '+' {
        seq![0x20u8] + query_bytes(q.skip(1))
    } else {
        seq![q[0] as u8] + query_bytes(q.skip(1))
    }
}

proof fn lemma_byte_reads_back(b: u8, rest: Seq<char>)
    ensures
        query_bytes(encoded_byte(b) + rest) == seq![b] + query_bytes(rest),
{
    let e = encoded_byte(b);
    let q = e + rest;
    if unreserved(b) {
        assert(q[0] == b as char);
        assert((b as char) as u8 == b);
        assert(q.skip(1) =~= rest);
    } else if b == 0x20 {
        assert(q[0] == '+');
        assert(q.skip(1) =~= rest);
    } else {
        assert(q[0] == '%');
        let hi = b as int / 16;
        let lo = b as int % 16;
        assert(q[1] == hex_digit(hi));
        assert(q[2] == hex_digit(lo));
        assert(hex_value(hex_digit(hi)) == hi);
        assert(hex_value(hex_digit(lo)) == lo);
        assert(q.skip(3) =~= rest);
    }
}

proof fn lemma_query_reads_back(bytes: Seq<u8>, n: int, rest: Seq<char>)
    requires
        0 <= n <= bytes.len(),
    ensures
        query_bytes(encoded(bytes, n) + rest) == bytes.take(n) + query_bytes(rest),
    decreases n,
{
    if n > 0 {
        let more = encoded_byte(bytes[n - 1]) + rest;
        lemma_query_reads_back(bytes, n - 1, more);
        lemma_byte_reads_back(bytes[n - 1], rest);
        assert(encoded(bytes, n) + rest =~= encoded(bytes, n - 1) + more);
        assert(bytes.take(n) =~= bytes.take(n - 1).push(bytes[n - 1]));
        assert(bytes.take(n - 1) + (seq![bytes[n - 1]] + query_bytes(rest)) =~= bytes.take(n)
            + query_bytes(rest));
    } else {
        assert(encoded(bytes, 0) + rest =~= rest);
        assert(bytes.take(0) + query_bytes(rest) =~= query_bytes(rest));
    }
}

/// A query stands for what was typed: read back as such queries are, with `+` for
/// a blank and `%` before a byte in hexadecimal, it gives every byte again.
pub proof fn law_queries_read_back(bytes: Seq<u8>)
    ensures
        query_bytes(encoded(bytes, bytes.len() as int)) == bytes,
{
    let n = bytes.len() as int;
    lemma_query_reads_back(bytes, n, Seq::empty());
    assert(encoded(bytes, n) + Seq::<char>::empty() =~= encoded(bytes, n));
    assert(bytes.take(n) + query_bytes(Seq::empty()) =~= bytes);
}

/// A tab has a browser where some slot is its own; the slot found is the first.
pub proof fn law_slots_are_found(p: PoolModel, tab: TabId, i: int)
    requires
        0 <= i <= p.slots.len(),
    ensures
        p.slot_from(tab, i) matches Some(k) ==> i <= k < p.slots.len() && p.slots[k] == Some(tab)
            && forall|j: int| i <= j < k ==> (#[trigger] p.slots[j]) != Some(tab),
        p.slot_from(tab, i) is None ==> forall|j: int|
            i <= j < p.slots.len() ==> (#[trigger] p.slots[j]) != Some(tab),
        p.free_from(i) matches Some(k) ==> i <= k < p.slots.len() && p.slots[k] is None
            && forall|j: int| i <= j < k ==> (#[trigger] p.slots[j]) is Some,
        p.free_from(i) is None ==> forall|j: int|
            i <= j < p.slots.len() ==> (#[trigger] p.slots[j]) is Some,
    decreases p.slots.len() - i,
{
    if i < p.slots.len() {
        law_slots_are_found(p, tab, i + 1);
    }
}

/// A new tab gets the first browser that is free, and one that has a browser
/// keeps it; giving it back frees that one and no other.
pub proof fn law_tabs_get_the_first_free_browser(p: PoolModel, tab: TabId, k: int)
    requires
        p.wf(),
        0 <= k < p.slots.len(),
    ensures
        ({
            let owns = exists|j: int| 0 <= j < p.slots.len() && (#[trigger] p.slots[j]) == Some(tab);
            let first = p.slots[k] is None && forall|j: int|
                0 <= j < k ==> (#[trigger] p.slots[j]) is Some;
            &&& p.slots[k] == Some(tab) ==> p.slot_for(tab) == Some(k) && p.assigned(tab) == p
            &&& !owns && first ==> p.slot_for(tab) == Some(k)
            &&& !owns && first ==> p.assigned(tab) == (PoolModel {
                slots: p.slots.update(k, Some(tab)),
                ..p
            })
            &&& p.slots[k] == Some(tab) ==> p.released(tab) == (PoolModel {
                slots: p.slots.update(k, None),
                ..p
            })
            &&& !owns ==> p.released(tab) == p
        }),
{
    law_slots_are_found(p, tab, 0);
    if p.slots[k] == Some(tab) {
        let i = p.slot_from(tab, 0).unwrap();
        if i < k {
            assert(p.slots[i] != p.slots[k]);
        }
        assert(i == k);
        assert(p.slots.update(k, Some(tab)) =~= p.slots);
        assert(p.assigned(tab) =~= p);
    }
}

/// The panel shows the browser that it is to show, at the place it is given; the
/// one that was there before is put away first. Without an area it shows none,
/// and what was there is put away.
pub proof fn law_the_panel_shows_the_active_browser(
    p: PoolModel,
    active: Option<usize>,
    visible: bool,
    at: Place,
)
    ensures
        ({
            let wanted: Option<usize> = if visible { active } else { None };
            let m = p.moves(active, visible, at);
            let after = p.laid_out(active, visible, at);
            &&& after.placed == wanted
            &&& after.slots == p.slots && after.home == p.home
            &&& wanted is Some ==> after.placed_at == Some(at)
            &&& p.placed != wanted ==> m.park == p.placed && m.place == wanted
            &&& p.placed == wanted && p.placed_at != Some(at) ==> m.park is None && m.place == wanted
            &&& p.placed == wanted && p.placed_at == Some(at) ==> m.park is None && m.place is None
        }),
{
}

/// The new-tab page is known by its file, wherever it is served from, or by the
/// address it was loaded from.
pub proof fn law_home_is_known(p: PoolModel, before: Seq<char>, behind: Seq<char>, home: Seq<char>)
    ensures
        p.at_home(before + "newtab.html"@ + behind),
        p.home == Some(home) ==> p.at_home(home),
        !occurs_in(home, "newtab.html"@) && p.home != Some(home) ==> !p.at_home(home),
{
    law_occurring_means_in_between(before, "newtab.html"@, behind);
}

/// In a query letters, digits and `-_.~` stand for themselves, a blank is a `+`,
/// and any other byte is a percent sign and its two digits, in capitals.
pub proof fn law_query_bytes_are_spelled(b: u8)
    ensures
        ({
            let c = b as char;
            let q = encoded_byte(b);
            let plain = 'a' <= c <= 'z' || 'A' <= c <= 'Z' || '0' <= c <= '9' || c == '-' || c
                == '_' || c == '.' || c == '~';
            &&& plain ==> q == seq![c]
            &&& c == ' ' ==> q == seq!['+']
            &&& !plain && c != ' ' ==> q.len() == 3 && q[0] == '%' && (forall|i: int|
                1 <= i < 3 ==> '0' <= (#[trigger] q[i]) <= '9' || 'A' <= q[i] <= 'F')
        }),
{
}

} // verus!
