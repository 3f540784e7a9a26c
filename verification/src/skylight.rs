//! The space layout that the window server reports, turned into one record per
//! space.
//!
//! The window server answers with one record per display: the display's
//! identifier, the id of the space it currently shows, and the ids of all of its
//! spaces, together with the identifier of the display whose menu bar is active.
//! Reading those records is done by the caller; this module decides what each
//! space is.

use vstd::prelude::*;
use vstd::utf8::*;
use crate::text::{string_from_utf8_lossy, utf8_lossy};

verus! {

/// One space as the window server reports it.
#[derive(Clone, Copy, Debug, PartialEq, Eq, Structural)]
pub struct SLSpace {
    pub id64: u64,
    /// The 0-based position of the space's display.
    pub display_index: usize,
    /// The space is the one its display shows.
    pub is_current: bool,
    /// The space is shown on the display whose menu bar is active.
    pub is_active: bool,
}

/// What the window server reports of one display. A missing field is `None`; a
/// space whose id cannot be read is `None` in `spaces`.
#[derive(Clone, Debug)]
pub struct DisplayRecord {
    pub identifier: Option<String>,
    pub current_space: Option<u64>,
    pub spaces: Option<Vec<Option<u64>>>,
}

/// An optional text, by its view.
pub open spec fn opt_text(t: Option<String>) -> Option<Seq<char>> {
    match t {
        Some(s) => Some(s@),
        None => None,
    }
}

/// Whether the display at `display_index` is the one whose menu bar is active:
/// the one whose identifier is the active one; the first display when the active
/// identifier is unknown.
pub open spec fn display_is_active(
    active: Option<Seq<char>>,
    identifier: Option<Seq<char>>,
    display_index: int,
) -> bool {
    match active {
        Some(a) => identifier == Some(a),
        None => display_index == 0,
    }
}

/// The record of one space: an unreadable id counts as 0; the space is current
/// when its id is the display's current one, and active when it is current on
/// the active display.
pub open spec fn space_entry(
    raw: Option<u64>,
    current: Option<u64>,
    display_index: int,
    active_display: bool,
) -> SLSpace {
    let id = match raw {
        Some(v) => v,
        None => 0u64,
    };
    let is_current = current == Some(id);
    SLSpace {
        id64: id,
        display_index: display_index as usize,
        is_current: is_current,
        is_active: is_current && active_display,
    }
}

/// The records of the spaces of one display, in the order it lists them.
pub open spec fn display_spaces_spec(
    active: Option<Seq<char>>,
    d: DisplayRecord,
    display_index: int,
) -> Seq<SLSpace> {
    match d.spaces {
        None => Seq::empty(),
        Some(v) => v@.map_values(
            |raw: Option<u64>|
                space_entry(
                    raw,
                    d.current_space,
                    display_index,
                    display_is_active(active, opt_text(d.identifier), display_index),
                ),
        ),
    }
}

/// The records of all spaces, display by display, in display order.
pub open spec fn spaces_spec(active: Option<Seq<char>>, displays: Seq<DisplayRecord>) -> Seq<SLSpace>
    decreases displays.len(),
{
    if displays.len() == 0 {
        Seq::empty()
    } else {
        spaces_spec(active, displays.drop_last()) + display_spaces_spec(
            active,
            displays.last(),
            displays.len() - 1,
        )
    }
}

/// Whether two optional texts are equal.
fn same_text(a: &Option<String>, b: &String) -> (r: bool)
    ensures
        r == (opt_text(*a) == Some(b@)),
{
    match a {
        Some(s) => *s == *b,
        None => false,
    }
}

/// Turns the window server's display records into one record per space, in
/// display order, marking which spaces are current and which one is active.
pub fn spaces_from_displays(active_display: &Option<String>, displays: &Vec<DisplayRecord>) -> (r:
    Vec<SLSpace>)
    ensures
        r@ == spaces_spec(opt_text(*active_display), displays@),
{
    let ghost active = opt_text(*active_display);
    let mut result: Vec<SLSpace> = Vec::new();
    let mut di: usize = 0;
    while di < displays.len()
        invariant
            di <= displays@.len(),
            active == opt_text(*active_display),
            result@ == spaces_spec(active, displays@.take(di as int)),
        decreases displays@.len() - di,
    {
        let d = &displays[di];
        let is_active_display = match active_display {
            Some(a) => same_text(&d.identifier, a),
            None => di == 0,
        };
        assert(is_active_display == display_is_active(active, opt_text(d.identifier), di as int));
        let ghost before = result@;
        let ghost entries = display_spaces_spec(active, *d, di as int);
        match &d.spaces {
            None => {
                assert(entries =~= Seq::<SLSpace>::empty());
            },
            Some(v) => {
                let mut si: usize = 0;
                while si < v.len()
                    invariant
                        si <= v@.len(),
                        d.spaces == Some(*v),
                        entries == display_spaces_spec(active, *d, di as int),
                        is_active_display == display_is_active(
                            active,
                            opt_text(d.identifier),
                            di as int,
                        ),
                        result@ == before + entries.take(si as int),
                    decreases v@.len() - si,
                {
                    let raw = v[si];
                    let id = match raw {
                        Some(x) => x,
                        None => 0u64,
                    };
                    let is_current = match d.current_space {
                        Some(c) => c == id,
                        None => false,
                    };
                    result.push(
                        SLSpace {
                            id64: id,
                            display_index: di,
                            is_current: is_current,
                            is_active: is_current && is_active_display,
                        },
                    );
                    si = si + 1;
                    assert(result@ =~= before + entries.take(si as int));
                }
                assert(entries.take(si as int) =~= entries);
            },
        }
        proof {
            assert(displays@.take(di + 1).drop_last() =~= displays@.take(di as int));
        }
        di = di + 1;
    }
    proof {
        assert(displays@.take(di as int) =~= displays@);
    }
    result
}

/// The bytes of a C string held in `buf`: those before the first NUL, or all of
/// them when there is none.
pub open spec fn c_string_prefix(buf: Seq<u8>) -> Seq<u8>
    decreases buf.len(),
{
    if buf.len() == 0 || buf[0] == 0 {
        Seq::empty()
    } else {
        seq![buf[0]] + c_string_prefix(buf.drop_first())
    }
}

proof fn lemma_c_string_prefix(buf: Seq<u8>, k: int)
    requires
        0 <= k <= buf.len(),
        forall|i: int| 0 <= i < k ==> #[trigger] buf[i] != 0,
        k == buf.len() || buf[k] == 0,
    ensures
        c_string_prefix(buf) == buf.take(k),
    decreases k,
{
    if k == 0 {
        assert(buf.take(0) =~= Seq::<u8>::empty());
    } else {
        let rest = buf.drop_first();
        assert forall|i: int| 0 <= i < k - 1 implies #[trigger] rest[i] != 0 by {
            assert(rest[i] == buf[i + 1]);
        }
        if k < buf.len() {
            assert(rest[k - 1] == buf[k]);
        }
        lemma_c_string_prefix(rest, k - 1);
        assert(seq![buf[0]] + rest.take(k - 1) =~= buf.take(k));
    }
}

/// A text whose UTF-8 holds no NUL comes back from a buffer that its C string
/// was copied into, whatever follows the NUL: the bytes before the first NUL are
/// its UTF-8, which is valid and decodes to the text.
pub proof fn lemma_c_string_round_trip(text: Seq<char>, tail: Seq<u8>)
    requires
        !encode_utf8(text).contains(0u8),
    ensures
        c_string_prefix(encode_utf8(text) + seq![0u8] + tail) == encode_utf8(text),
        valid_utf8(encode_utf8(text)),
        decode_utf8(encode_utf8(text)) == text,
{
    let e = encode_utf8(text);
    let buf = e + seq![0u8] + tail;
    assert forall|i: int| 0 <= i < e.len() implies #[trigger] buf[i] != 0 by {
        assert(buf[i] == e[i]);
        if e[i] == 0 {
            assert(e.contains(0u8));
        }
    }
    assert(buf[e.len() as int] == 0);
    lemma_c_string_prefix(buf, e.len() as int);
    assert(buf.take(e.len() as int) =~= e);
    encode_utf8_valid_utf8(text);
    encode_utf8_decode_utf8(text);
}

/// The text held in a buffer that a C string was copied into: the bytes before
/// the first NUL, decoded as UTF-8 with invalid sequences replaced.
pub fn c_buffer_to_string(buf: &[u8]) -> (r: String)
    ensures
        r@ == utf8_lossy(c_string_prefix(buf@)),
        valid_utf8(c_string_prefix(buf@)) ==> r@ == decode_utf8(c_string_prefix(buf@)),
{
    let mut end: usize = 0;
    while end < buf.len() && buf[end] != 0
        invariant
            end <= buf@.len(),
            forall|i: int| 0 <= i < end ==> #[trigger] buf@[i] != 0,
        decreases buf@.len() - end,
    {
        end = end + 1;
    }
    proof {
        lemma_c_string_prefix(buf@, end as int);
    }
    let text = &buf[0..end];
    assert(text@ =~= buf@.take(end as int));
    string_from_utf8_lossy(text)
}

/// The bytes of `s` as a C string: its UTF-8 encoding followed by a NUL.
pub fn c_string_bytes(s: &str) -> (r: Vec<u8>)
    ensures
        r@ == encode_utf8(s@) + seq![0u8],
{
    let bytes = s.as_bytes();
    let mut r: Vec<u8> = Vec::new();
    let mut j: usize = 0;
    while j < bytes.len()
        invariant
            j <= bytes@.len(),
            bytes@ == encode_utf8(s@),
            r@ == bytes@.take(j as int),
        decreases bytes@.len() - j,
    {
        r.push(bytes[j]);
        j = j + 1;
        assert(r@ =~= bytes@.take(j as int));
    }
    r.push(0u8);
    assert(bytes@.take(j as int) =~= bytes@);
    r
}

/// Every space record comes from a listed display and keeps that display's
/// position; a space is active only when it is the current space of the display
/// whose menu bar is active.
pub proof fn lemma_space_records(
    active: Option<Seq<char>>,
    displays: Seq<DisplayRecord>,
    k: int,
)
    requires
        displays.len() <= usize::MAX,
        0 <= k < spaces_spec(active, displays).len(),
    ensures
        ({
            let s = spaces_spec(active, displays)[k];
            &&& s.display_index < displays.len()
            &&& s.is_active ==> s.is_current
            &&& s.is_active ==> display_is_active(
                active,
                opt_text(displays[s.display_index as int].identifier),
                s.display_index as int,
            )
        }),
    decreases displays.len(),
{
    let rest = displays.drop_last();
    let prefix = spaces_spec(active, rest);
    if k < prefix.len() {
        lemma_space_records(active, rest, k);
        assert(spaces_spec(active, displays)[k] == prefix[k]);
        assert(displays[prefix[k].display_index as int] == rest[prefix[k].display_index as int]);
    } else {
        let d = displays.last();
        let di = displays.len() - 1;
        let entries = display_spaces_spec(active, d, di);
        assert(spaces_spec(active, displays)[k] == entries[k - prefix.len()]);
        assert(displays[di] == d);
    }
}

/// What each space record says, in terms of the display records: its display's
/// current space is its id; it is active exactly when it is current and its
/// display's identifier is the active one (or, with the active identifier
/// unknown, its display is the first).
pub proof fn lemma_space_record_flags(
    active: Option<Seq<char>>,
    displays: Seq<DisplayRecord>,
    k: int,
)
    requires
        displays.len() <= usize::MAX,
        0 <= k < spaces_spec(active, displays).len(),
    ensures
        ({
            let s = spaces_spec(active, displays)[k];
            let d = displays[s.display_index as int];
            &&& s.display_index < displays.len()
            &&& s.is_current <==> d.current_space == Some(s.id64)
            &&& s.is_active <==> s.is_current && match active {
                Some(a) => opt_text(d.identifier) == Some(a),
                None => s.display_index == 0,
            }
        }),
    decreases displays.len(),
{
    let rest = displays.drop_last();
    let prefix = spaces_spec(active, rest);
    if k < prefix.len() {
        lemma_space_record_flags(active, rest, k);
        assert(spaces_spec(active, displays)[k] == prefix[k]);
        assert(displays[prefix[k].display_index as int] == rest[prefix[k].display_index as int]);
    } else {
        let d = displays.last();
        let di = displays.len() - 1;
        let entries = display_spaces_spec(active, d, di);
        assert(spaces_spec(active, displays)[k] == entries[k - prefix.len()]);
        assert(displays[di] == d);
    }
}

} // verus!
