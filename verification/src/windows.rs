//! Windows as the overview knows them, and how they are found through the window manager's
//! client lists.

use vstd::prelude::*;

use crate::atoms;
use crate::atoms::Atoms;
use crate::pixels;
use crate::text;
use crate::x11;
use crate::x11::{Extent, Fault, Property, Question, Reply, WindowAttributes};

verus! {

/// Where a window stands, how large it is and how its pixels are laid out.
#[derive(Debug, Clone, Copy)]
pub struct WindowGeometry {
    pub x: i16,
    pub y: i16,
    pub width: u16,
    pub height: u16,
    pub depth: u8,
    pub visual: u32,
}

/// A client window that the overview can show and focus.
#[derive(Debug)]
pub struct WindowInfo {
    pub id: u32,
    pub name: String,
    pub instance: Option<String>,
    pub class: Option<String>,
    pub workspace: String,
    pub workspace_num: Option<i32>,
    pub i3_con_id: Option<i64>,
    pub tree_order: usize,
    pub urgent: bool,
    pub focused: bool,
    pub geometry: WindowGeometry,
}

impl Clone for WindowInfo {
    fn clone(&self) -> (copy: Self)
        ensures
            copy == *self,
    {
        WindowInfo {
            id: self.id,
            name: self.name.clone(),
            instance: text::copy_option(&self.instance),
            class: text::copy_option(&self.class),
            workspace: self.workspace.clone(),
            workspace_num: self.workspace_num,
            i3_con_id: self.i3_con_id,
            tree_order: self.tree_order,
            urgent: self.urgent,
            focused: self.focused,
            geometry: self.geometry,
        }
    }
}

/// `id` stands in `ids`.
pub open spec fn listed(ids: Seq<u32>, id: u32) -> bool {
    exists|i: int| 0 <= i < ids.len() && ids[i] == id
}

/// The first occurrence of every number, in their order.
pub open spec fn first_occurrences(ids: Seq<u32>) -> Seq<u32>
    decreases ids.len(),
{
    if ids.len() == 0 {
        seq![]
    } else {
        let before = first_occurrences(ids.drop_last());
        if listed(before, ids.last()) {
            before
        } else {
            before.push(ids.last())
        }
    }
}

fn is_listed(ids: &Vec<u32>, id: u32) -> (found: bool)
    ensures
        found == listed(ids@, id),
{
    let mut i: usize = 0;
    while i < ids.len()
        invariant
            i <= ids@.len(),
            forall|j: int| 0 <= j < i ==> ids@[j] != id,
        decreases ids@.len() - i,
    {
        if ids[i] == id {
            return true;
        }
        i += 1;
    }
    false
}

/// Drops what a list of windows names again.
pub fn distinct(ids: &Vec<u32>) -> (result: Vec<u32>)
    ensures
        result@ == first_occurrences(ids@),
{
    let mut result: Vec<u32> = Vec::new();
    let mut i: usize = 0;
    assert(ids@.take(0) =~= seq![]);
    while i < ids.len()
        invariant
            i <= ids@.len(),
            result@ == first_occurrences(ids@.take(i as int)),
        decreases ids@.len() - i,
    {
        assert(ids@.take(i + 1).drop_last() =~= ids@.take(i as int));
        if !is_listed(&result, ids[i]) {
            result.push(ids[i]);
        }
        i += 1;
    }
    assert(ids@.take(i as int) =~= ids@);
    result
}

/// A list without repetitions names every window of the list, and each once.
pub proof fn law_distinct_names_each_window_once(ids: Seq<u32>)
    ensures
        forall|i: int, j: int|
            0 <= i < j < first_occurrences(ids).len() ==> #[trigger] first_occurrences(ids)[i]
                != #[trigger] first_occurrences(ids)[j],
        forall|id: u32| listed(first_occurrences(ids), id) <==> listed(ids, id),
    decreases ids.len(),
{
    if ids.len() > 0 {
        let rest = ids.drop_last();
        law_distinct_names_each_window_once(rest);
        let before = first_occurrences(rest);
        let all = first_occurrences(ids);
        assert forall|id: u32| listed(all, id) <==> listed(ids, id) by {
            if listed(all, id) {
                let i = choose|i: int| 0 <= i < all.len() && all[i] == id;
                if i < before.len() {
                    assert(before[i] == id);
                    assert(listed(before, id));
                    assert(listed(rest, id));
                    let k = choose|k: int| 0 <= k < rest.len() && rest[k] == id;
                    assert(ids[k] == id);
                } else {
                    assert(ids[ids.len() - 1] == id);
                }
            }
            if listed(ids, id) {
                let k = choose|k: int| 0 <= k < ids.len() && ids[k] == id;
                if k < rest.len() {
                    assert(rest[k] == id);
                    assert(listed(rest, id));
                    assert(listed(before, id));
                    let i = choose|i: int| 0 <= i < before.len() && before[i] == id;
                    assert(all[i] == id);
                } else if listed(before, id) {
                } else {
                    assert(all[all.len() - 1] == id);
                }
            }
        }
        assert forall|i: int, j: int| 0 <= i < j < all.len() implies #[trigger] all[i]
            != #[trigger] all[j] by {
            if j == before.len() {
                assert(before[i] != ids.last());
            }
        }
    }
}

/// Where the list of windows comes from.
#[derive(Debug, Clone, Copy, PartialEq, Eq, Structural)]
pub enum WindowSource {
    /// The window manager's clients, from the lowest to the topmost.
    StackingList,
    /// The window manager's clients, in the order in which they came.
    ClientList,
    /// The children of the root window.
    RootChildren,
}

/// How much of a list of windows is read, in units of four bytes.
pub const LIST_LENGTH: u32 = 0x10_0000;

/// The question that a source of windows answers.
#[derive(Debug, Clone, Copy, PartialEq, Eq, Structural)]
pub enum ListQuestion {
    /// A property of a type, from its start, and no more of it than `length` units of four bytes.
    Property { window: u32, property: u32, kind: u32, length: u32 },
    Children { window: u32 },
}

impl WindowSource {
    /// What to ask on a screen with the given root window.
    pub open spec fn asks(self, root: u32, atoms: Atoms) -> ListQuestion {
        match self {
            WindowSource::StackingList => {
                ListQuestion::Property {
                    window: root,
                    property: atoms.net_client_list_stacking,
                    kind: atoms::WINDOW_ATOM,
                    length: LIST_LENGTH,
                }
            },
            WindowSource::ClientList => {
                ListQuestion::Property {
                    window: root,
                    property: atoms.net_client_list,
                    kind: atoms::WINDOW_ATOM,
                    length: LIST_LENGTH,
                }
            },
            WindowSource::RootChildren => ListQuestion::Children { window: root },
        }
    }

    /// What to ask on a screen with the given root window.
    pub fn question(self, root: u32, atoms: &Atoms) -> (question: ListQuestion)
        ensures
            question == self.asks(root, *atoms),
    {
        match self {
            WindowSource::StackingList => {
                ListQuestion::Property {
                    window: root,
                    property: atoms.net_client_list_stacking,
                    kind: atoms::WINDOW_ATOM,
                    length: LIST_LENGTH,
                }
            },
            WindowSource::ClientList => {
                ListQuestion::Property {
                    window: root,
                    property: atoms.net_client_list,
                    kind: atoms::WINDOW_ATOM,
                    length: LIST_LENGTH,
                }
            },
            WindowSource::RootChildren => ListQuestion::Children { window: root },
        }
    }
}

/// Where to look next, when a source named `count` windows.
pub open spec fn next_source(source: WindowSource, count: nat) -> Option<WindowSource> {
    if count > 0 {
        None
    } else {
        match source {
            WindowSource::StackingList => Some(WindowSource::ClientList),
            WindowSource::ClientList => Some(WindowSource::RootChildren),
            WindowSource::RootChildren => None,
        }
    }
}

/// Where to look next for windows, if `ids` is what `source` named.
pub fn fall_back(source: WindowSource, ids: &Vec<u32>) -> (next: Option<WindowSource>)
    ensures
        next == next_source(source, ids@.len()),
{
    if ids.len() > 0 {
        return None;
    }
    match source {
        WindowSource::StackingList => Some(WindowSource::ClientList),
        WindowSource::ClientList => Some(WindowSource::RootChildren),
        WindowSource::RootChildren => None,
    }
}

/// The numbers of four bytes each that `value` holds, with the least significant byte first or
/// last; bytes that do not fill a number are left out.
pub open spec fn numbers(value: Seq<u8>, lsb_first: bool) -> Seq<u32> {
    Seq::new(
        value.len() / 4,
        |i: int| pixels::pixel_value(value.subrange(4 * i, 4 * i + 4), lsb_first) as u32,
    )
}

/// `GetPropertyReply::value32` of x11rb, collected: the numbers of a property of 32-bit items,
/// in the byte order of the machine, and nothing for items of another size. Which of the two
/// byte orders it is depends on the machine.
#[verifier::external_body]
fn property_numbers(property: &Property) -> (values: Option<Vec<u32>>)
    ensures
        values is Some <==> property.format == 32,
        values is Some ==> {
            ||| values->0@ == numbers(property.value@, true)
            ||| values->0@ == numbers(property.value@, false)
        },
{
    x11rb::protocol::xproto::GetPropertyReply {
        format: property.format,
        type_: property.kind,
        value: property.value.clone(),
        ..Default::default()
    }.value32().map(|values| values.collect())
}

/// The windows that a property of the root window lists; none where its items are not numbers
/// of 32 bits.
pub fn window_list(property: &Property) -> (ids: Vec<u32>)
    ensures
        property.format != 32 ==> ids@.len() == 0,
        property.format == 32 ==> {
            ||| ids@ == numbers(property.value@, true)
            ||| ids@ == numbers(property.value@, false)
        },
{
    match property_numbers(property) {
        Some(values) => values,
        None => Vec::new(),
    }
}

/// The pieces of bytes that are split at each zero; `piece` was met before `rest`.
pub open spec fn pieces_from(piece: Seq<u8>, rest: Seq<u8>) -> Seq<Seq<u8>>
    decreases rest.len(),
{
    if rest.len() == 0 {
        seq![piece]
    } else if rest[0] == 0 {
        seq![piece] + pieces_from(seq![], rest.skip(1))
    } else {
        pieces_from(piece.push(rest[0]), rest.skip(1))
    }
}

/// The pieces between the zeros of `value`.
pub open spec fn pieces(value: Seq<u8>) -> Seq<Seq<u8>> {
    pieces_from(seq![], value)
}

/// The bytes of each piece of a list.
pub open spec fn piece_views(list: Seq<Vec<u8>>) -> Seq<Seq<u8>> {
    list.map_values(|piece: Vec<u8>| piece@)
}

/// The text that bytes hold: decoded, and without the white space around it.
pub open spec fn text_in(bytes: Seq<u8>) -> Seq<char> {
    text::trimmed(text::decoded(bytes))
}

/// The texts that the pieces hold, without those that hold none.
pub open spec fn texts_in(pieces: Seq<Seq<u8>>) -> Seq<Seq<char>>
    decreases pieces.len(),
{
    if pieces.len() == 0 {
        seq![]
    } else {
        let before = texts_in(pieces.drop_last());
        let piece = pieces.last();
        if piece.len() == 0 || text_in(piece).len() == 0 {
            before
        } else {
            before.push(text_in(piece))
        }
    }
}

/// The property is there and holds text.
pub open spec fn holds_text(property: Property) -> bool {
    property.kind != atoms::NO_ATOM && property.format == 8 && property.value@.len() > 0
}

/// A text, unless it is empty.
pub open spec fn unless_empty(content: Seq<char>) -> Option<Seq<char>> {
    if content.len() == 0 {
        None
    } else {
        Some(content)
    }
}

/// The trimmed texts that the pieces encode, without those that are empty.
pub open spec fn encoded_texts(pieces: Seq<Seq<u8>>) -> Seq<Seq<char>>
    decreases pieces.len(),
{
    if pieces.len() == 0 {
        seq![]
    } else {
        let before = encoded_texts(pieces.drop_last());
        match unless_empty(text::trimmed(vstd::utf8::decode_utf8(pieces.last()))) {
            Some(content) => before.push(content),
            None => before,
        }
    }
}

/// Every piece is UTF-8.
pub open spec fn all_utf8(pieces: Seq<Seq<u8>>) -> bool {
    forall|i: int| 0 <= i < pieces.len() ==> vstd::utf8::valid_utf8(#[trigger] pieces[i])
}

/// Pieces that are UTF-8 hold the texts that they encode.
pub proof fn law_valid_pieces_are_decoded(pieces: Seq<Seq<u8>>)
    requires
        all_utf8(pieces),
    ensures
        texts_in(pieces) == encoded_texts(pieces),
    decreases pieces.len(),
{
    if pieces.len() > 0 {
        let shorter = pieces.drop_last();
        assert forall|i: int| 0 <= i < shorter.len() implies vstd::utf8::valid_utf8(
            #[trigger] shorter[i],
        ) by {
            assert(shorter[i] == pieces[i]);
        }
        law_valid_pieces_are_decoded(shorter);
        assert(vstd::utf8::valid_utf8(pieces[pieces.len() - 1]));
    }
}

/// The text of a reply, up to the first zero, if there is any.
pub open spec fn reply_text(reply: Reply) -> Option<Seq<char>> {
    match reply {
        Reply::Property(property) => {
            if holds_text(property) && text_in(pieces(property.value@)[0]).len() > 0 {
                Some(text_in(pieces(property.value@)[0]))
            } else {
                None
            }
        },
        _ => None,
    }
}

/// The instance and the class that a reply names: the first two texts of its property.
pub open spec fn reply_class(reply: Reply) -> (Option<Seq<char>>, Option<Seq<char>>) {
    match reply {
        Reply::Property(property) => {
            if holds_text(property) {
                let texts = texts_in(pieces(property.value@));
                (
                    if texts.len() > 0 {
                        Some(texts[0])
                    } else {
                        None
                    },
                    if texts.len() > 1 {
                        Some(texts[1])
                    } else {
                        None
                    },
                )
            } else {
                (None, None)
            }
        },
        _ => (None, None),
    }
}

/// Splits bytes at each zero.
pub fn split_at_zeros(value: &Vec<u8>) -> (list: Vec<Vec<u8>>)
    ensures
        piece_views(list@) == pieces(value@),
        list@.len() > 0,
{
    let mut list: Vec<Vec<u8>> = Vec::new();
    let mut piece: Vec<u8> = Vec::new();
    let mut i: usize = 0;
    assert(value@.skip(0) =~= value@);
    assert(pieces(value@) =~= piece_views(list@) + pieces_from(piece@, value@.skip(0)));
    while i < value.len()
        invariant
            i <= value@.len(),
            pieces(value@) == piece_views(list@) + pieces_from(piece@, value@.skip(i as int)),
        decreases value@.len() - i,
    {
        assert(value@.skip(i as int).skip(1) =~= value@.skip(i + 1));
        if value[i] == 0 {
            let ghost before = list@;
            let ghost rest = pieces_from(seq![], value@.skip(i + 1));
            list.push(piece);
            piece = Vec::new();
            proof {
                assert(piece_views(list@) =~= piece_views(before).push(list@.last()@));
                assert(piece_views(before) + (seq![list@.last()@] + rest) =~= piece_views(list@)
                    + rest);
            }
        } else {
            piece.push(value[i]);
        }
        i += 1;
    }
    let ghost before = list@;
    list.push(piece);
    assert(piece_views(list@) =~= piece_views(before) + seq![list@.last()@]);
    list
}

/// The text that is shown for a decoded one: without the white space around it, and nothing if
/// there is nothing else.
pub fn shown_text(decoded: &str) -> (shown: Option<String>)
    ensures
        text::option_view(shown) == (if text::trimmed(decoded@).len() == 0 {
            None
        } else {
            Some(text::trimmed(decoded@))
        }),
{
    let content: String = text::trim(decoded);
    if text::is_blank(content.as_str()) {
        None
    } else {
        Some(content)
    }
}

/// Reads the text of a property.
pub fn read_string_property(reply: &Reply) -> (result: Option<String>)
    ensures
        text::option_view(result) == reply_text(*reply),
        match *reply {
            Reply::Property(property) => {
                let piece = pieces(property.value@)[0];
                holds_text(property) && vstd::utf8::valid_utf8(piece) ==> text::option_view(
                    result,
                ) == unless_empty(text::trimmed(vstd::utf8::decode_utf8(piece)))
            },
            _ => true,
        },
{
    match reply {
        Reply::Property(property) => {
            if property.kind == atoms::NO_ATOM || property.format != 8 || property.value.len() == 0 {
                return None;
            }
            let list: Vec<Vec<u8>> = split_at_zeros(&property.value);
            assert(list@[0]@ == piece_views(list@)[0]);
            shown_text(text::decode_lossy(list[0].as_slice()).as_str())
        },
        _ => None,
    }
}

/// The texts of pieces of bytes.
fn decode_pieces(list: &Vec<Vec<u8>>) -> (texts: Vec<String>)
    ensures
        text::views(texts@) == texts_in(piece_views(list@)),
{
    let mut texts: Vec<String> = Vec::new();
    let mut i: usize = 0;
    let ghost all = piece_views(list@);
    assert(all.take(0) =~= seq![]);
    assert(text::views(texts@) =~= texts_in(all.take(0)));
    while i < list.len()
        invariant
            i <= list@.len(),
            all == piece_views(list@),
            text::views(texts@) == texts_in(all.take(i as int)),
        decreases list@.len() - i,
    {
        let piece: &Vec<u8> = &list[i];
        assert(all[i as int] == piece@);
        assert(all.take(i + 1).drop_last() =~= all.take(i as int));
        if piece.len() > 0 {
            match shown_text(text::decode_lossy(piece.as_slice()).as_str()) {
                Some(content) => {
                    let ghost before = texts@;
                    texts.push(content);
                    assert(text::views(texts@) =~= text::views(before).push(content@));
                },
                None => {},
            }
        }
        i += 1;
    }
    assert(all.take(i as int) =~= all);
    texts
}

/// The instance and the class among the texts of a property: the first two.
pub fn instance_and_class(texts: &Vec<String>) -> (names: (Option<String>, Option<String>))
    ensures
        names.0 == (if texts@.len() > 0 {
            Some(texts@[0])
        } else {
            None
        }),
        names.1 == (if texts@.len() > 1 {
            Some(texts@[1])
        } else {
            None
        }),
{
    let instance: Option<String> = if texts.len() > 0 {
        Some(texts[0].clone())
    } else {
        None
    };
    let class: Option<String> = if texts.len() > 1 {
        Some(texts[1].clone())
    } else {
        None
    };
    (instance, class)
}

/// Reads the instance and the class of a window.
pub fn read_wm_class(reply: &Reply) -> (names: (Option<String>, Option<String>))
    ensures
        text::option_view(names.0) == reply_class(*reply).0,
        text::option_view(names.1) == reply_class(*reply).1,
        match *reply {
            Reply::Property(property) => {
                let list = pieces(property.value@);
                let texts = encoded_texts(list);
                holds_text(property) && all_utf8(list) ==> {
                    &&& text::option_view(names.0) == (if texts.len() > 0 {
                        Some(texts[0])
                    } else {
                        None
                    })
                    &&& text::option_view(names.1) == (if texts.len() > 1 {
                        Some(texts[1])
                    } else {
                        None
                    })
                }
            },
            _ => true,
        },
{
    match reply {
        Reply::Property(property) => {
            if property.kind == atoms::NO_ATOM || property.format != 8 || property.value.len() == 0 {
                return (None, None);
            }
            let texts: Vec<String> = decode_pieces(&split_at_zeros(&property.value));
            proof {
                if all_utf8(pieces(property.value@)) {
                    law_valid_pieces_are_decoded(pieces(property.value@));
                }
            }
            assert(text::views(texts@).len() == texts@.len());
            instance_and_class(&texts)
        },
        _ => (None, None),
    }
}

/// Bytes without a zero stay in one piece with what was met before.
proof fn lemma_pieces_past(piece: Seq<u8>, head: Seq<u8>, rest: Seq<u8>)
    requires
        forall|i: int| 0 <= i < head.len() ==> #[trigger] head[i] != 0,
    ensures
        pieces_from(piece, head + rest) == pieces_from(piece + head, rest),
    decreases head.len(),
{
    if head.len() == 0 {
        assert(head + rest =~= rest);
        assert(piece + head =~= piece);
    } else {
        let tail = head.skip(1);
        assert((head + rest)[0] == head[0]);
        assert((head + rest).skip(1) =~= tail + rest);
        assert forall|i: int| 0 <= i < tail.len() implies #[trigger] tail[i] != 0 by {
            assert(tail[i] == head[i + 1]);
        }
        lemma_pieces_past(piece.push(head[0]), tail, rest);
        assert(piece.push(head[0]) + tail =~= piece + head);
    }
}

/// A name that a window's property encodes is read back, without the white space around it; what
/// may stand past a zero does not matter.
pub proof fn law_name_reads_back(property: Property, name: Seq<char>, rest: Seq<u8>)
    requires
        holds_text(property),
        text::without_zero(name),
        ({
            let bytes = vstd::utf8::encode_utf8(name);
            property.value@ == bytes || property.value@ == bytes.push(0) + rest
        }),
    ensures
        reply_text(Reply::Property(property)) == unless_empty(text::trimmed(name)),
{
    let bytes = vstd::utf8::encode_utf8(name);
    text::lemma_encoded_without_zero(name);
    text::law_encoded_text_reads_back(name);
    assert(seq![] + bytes =~= bytes);
    if property.value@ == bytes {
        assert(bytes + seq![] =~= bytes);
        lemma_pieces_past(seq![], bytes, seq![]);
    } else {
        let after = seq![0u8] + rest;
        assert(bytes.push(0) + rest =~= bytes + after);
        lemma_pieces_past(seq![], bytes, after);
        assert(after.skip(1) =~= rest);
    }
    assert(pieces(property.value@)[0] == bytes);
}

/// An instance and a class that a window's property encodes, each closed by a zero, are read
/// back, without the white space around them.
pub proof fn law_class_reads_back(property: Property, instance: Seq<char>, class: Seq<char>)
    requires
        holds_text(property),
        text::without_zero(instance),
        text::without_zero(class),
        text::trimmed(instance).len() > 0,
        text::trimmed(class).len() > 0,
        property.value@ == vstd::utf8::encode_utf8(instance).push(0) + vstd::utf8::encode_utf8(
            class,
        ).push(0),
    ensures
        reply_class(Reply::Property(property)) == (
            Some(text::trimmed(instance)),
            Some(text::trimmed(class)),
        ),
{
    let a = vstd::utf8::encode_utf8(instance);
    let b = vstd::utf8::encode_utf8(class);
    text::lemma_encoded_without_zero(instance);
    text::lemma_encoded_without_zero(class);
    text::law_encoded_text_reads_back(instance);
    text::law_encoded_text_reads_back(class);
    let zero = seq![0u8];
    let tail = zero + b.push(0);
    let none: Seq<u8> = seq![];
    assert(property.value@ =~= a + tail);
    lemma_pieces_past(none, a, tail);
    assert(none + a =~= a);
    assert(tail.skip(1) =~= b + zero);
    lemma_pieces_past(none, b, zero);
    assert(none + b =~= b);
    assert(zero.skip(1) =~= none);
    let list = pieces(property.value@);
    assert(pieces_from(b, zero) =~= seq![b] + pieces_from(none, none));
    assert(pieces_from(a, tail) =~= seq![a] + pieces_from(none, b + zero));
    assert(list =~= seq![a, b, none]);
    assert(list.drop_last() =~= seq![a, b]);
    assert(list.drop_last().drop_last() =~= seq![a]);
    assert(list.drop_last().drop_last().drop_last() =~= seq![]);
    assert(a.len() > 0 && b.len() > 0) by {
        if a.len() == 0 {
            lemma_nothing_encodes_nothing(instance);
        }
        if b.len() == 0 {
            lemma_nothing_encodes_nothing(class);
        }
    }
    assert(texts_in(seq![a]) =~= seq![text_in(a)]) by {
        let nothing: Seq<Seq<u8>> = seq![];
        assert(seq![a].drop_last() =~= nothing);
        assert(texts_in(nothing) =~= seq![]);
        assert(texts_in(seq![a]) == texts_in(nothing).push(text_in(a)));
    }
    assert(texts_in(seq![a, b]) =~= seq![text_in(a), text_in(b)]) by {
        assert(seq![a, b].drop_last() =~= seq![a]);
    }
    assert(texts_in(list) == texts_in(seq![a, b]));
}

/// Only the empty text is encoded by no bytes, and it has nothing to show.
proof fn lemma_nothing_encodes_nothing(chars: Seq<char>)
    requires
        vstd::utf8::encode_utf8(chars).len() == 0,
    ensures
        text::trimmed(chars).len() == 0,
{
    text::law_encoded_text_reads_back(chars);
    let none: Seq<char> = seq![];
    text::law_encoded_text_reads_back(none);
    assert(vstd::utf8::encode_utf8(chars) =~= vstd::utf8::encode_utf8(none));
}

/// The name of a window that has none: its number.
pub open spec fn number_name(id: u32) -> Seq<char> {
    "0x"@ + text::hex(id as nat, 8)
}

/// The name of a window that has none.
pub fn fallback_name(id: u32) -> (name: String)
    ensures
        name@ == number_name(id),
{
    let mut name: String = "0x".to_owned();
    text::push_hex(&mut name, id as u64, 8);
    name
}

/// The window can be shown: the window manager looks after it, it is on screen, and it can be
/// drawn to.
pub open spec fn showable(attributes: WindowAttributes) -> bool {
    !attributes.override_redirect && attributes.viewable && attributes.input_output
}

/// Where a window stands on the root window: where the server says, if it stands on this
/// screen, and where it stands in its parent otherwise.
pub open spec fn root_position(extent: Extent, reply: Reply) -> (i16, i16) {
    match reply {
        Reply::Position { same_screen: true, x, y } => (x, y),
        _ => (extent.x, extent.y),
    }
}

/// Where a window stands on the root window.
pub fn place_on_root(extent: Extent, reply: &Reply) -> (position: (i16, i16))
    ensures
        position == root_position(extent, *reply),
{
    match reply {
        Reply::Position { same_screen: true, x, y } => (*x, *y),
        _ => (extent.x, extent.y),
    }
}

/// A window's size and pixels as the server gives them, at another place.
pub open spec fn geometry_at(
    extent: Extent,
    visual: u32,
    position: (i16, i16),
) -> WindowGeometry {
    WindowGeometry {
        x: position.0,
        y: position.1,
        width: extent.width,
        height: extent.height,
        depth: extent.depth,
        visual,
    }
}

/// What is asked about a window, in turn, and what is known of it so far.
#[derive(Debug)]
pub enum Inspection {
    /// Asking for the attributes.
    Attributes,
    /// Asking for the place and size.
    Geometry { visual: u32 },
    /// Asking for the place on the root window.
    Position { visual: u32, extent: Extent },
    /// Asking for the name that the window manager shows.
    NetName { geometry: WindowGeometry },
    /// Asking for the plain name.
    PlainName { geometry: WindowGeometry },
    /// Asking for the instance and the class.
    Class { geometry: WindowGeometry, name: String },
    /// The window is not shown.
    Skipped,
    /// The window, described.
    Found(WindowInfo),
}

/// The window as its client list describes it: on no known workspace.
pub open spec fn describes(
    window: WindowInfo,
    id: u32,
    name: Seq<char>,
    class: (Option<Seq<char>>, Option<Seq<char>>),
    geometry: WindowGeometry,
) -> bool {
    &&& window.id == id
    &&& window.name@ == name
    &&& text::option_view(window.instance) == class.0
    &&& text::option_view(window.class) == class.1
    &&& window.workspace@ == ""@
    &&& window.workspace_num is None
    &&& window.i3_con_id is None
    &&& window.tree_order == 0
    &&& !window.urgent
    &&& !window.focused
    &&& window.geometry == geometry
}

impl Inspection {
    /// What to ask about the window `id`, if the inspection is not over.
    pub open spec fn asks(self, id: u32, root: u32, atoms: Atoms) -> Option<Question> {
        match self {
            Inspection::Attributes => Some(Question::Attributes { window: id }),
            Inspection::Geometry { .. } => Some(Question::Geometry { window: id }),
            Inspection::Position { .. } => {
                Some(Question::Position { window: id, destination: root })
            },
            Inspection::NetName { .. } => Some(
                Question::Property {
                    window: id,
                    property: atoms.net_wm_name,
                    kind: atoms.utf8_string,
                    length: x11::TEXT_LENGTH,
                },
            ),
            Inspection::PlainName { .. } => Some(
                Question::Property {
                    window: id,
                    property: atoms::WM_NAME_ATOM,
                    kind: atoms::STRING_ATOM,
                    length: x11::TEXT_LENGTH,
                },
            ),
            Inspection::Class { .. } => Some(
                Question::Property {
                    window: id,
                    property: atoms::WM_CLASS_ATOM,
                    kind: atoms::STRING_ATOM,
                    length: x11::TEXT_LENGTH,
                },
            ),
            Inspection::Skipped | Inspection::Found(_) => None,
        }
    }

    /// What to ask about the window `id`, if the inspection is not over.
    pub fn question(&self, id: u32, root: u32, atoms: &Atoms) -> (question: Option<Question>)
        ensures
            question == self.asks(id, root, *atoms),
    {
        match self {
            Inspection::Attributes => Some(Question::Attributes { window: id }),
            Inspection::Geometry { .. } => Some(Question::Geometry { window: id }),
            Inspection::Position { .. } => {
                Some(Question::Position { window: id, destination: root })
            },
            Inspection::NetName { .. } => Some(
                Question::Property {
                    window: id,
                    property: atoms.net_wm_name,
                    kind: atoms.utf8_string,
                    length: x11::TEXT_LENGTH,
                },
            ),
            Inspection::PlainName { .. } => Some(
                Question::Property {
                    window: id,
                    property: atoms::WM_NAME_ATOM,
                    kind: atoms::STRING_ATOM,
                    length: x11::TEXT_LENGTH,
                },
            ),
            Inspection::Class { .. } => Some(
                Question::Property {
                    window: id,
                    property: atoms::WM_CLASS_ATOM,
                    kind: atoms::STRING_ATOM,
                    length: x11::TEXT_LENGTH,
                },
            ),
            Inspection::Skipped | Inspection::Found(_) => None,
        }
    }

    /// `next` is what the inspection of window `id` becomes when `reply` comes back.
    pub open spec fn leads_to(self, id: u32, reply: Reply, next: Inspection) -> bool {
        match self {
            Inspection::Attributes => match reply {
                Reply::Attributes(attributes) if showable(attributes) => {
                    next == Inspection::Geometry { visual: attributes.visual }
                },
                _ => next == Inspection::Skipped,
            },
            Inspection::Geometry { visual } => match reply {
                Reply::Geometry(extent) if !extent.is_empty() => {
                    next == Inspection::Position { visual, extent }
                },
                _ => next == Inspection::Skipped,
            },
            Inspection::Position { visual, extent } => {
                next == Inspection::NetName {
                    geometry: geometry_at(extent, visual, root_position(extent, reply)),
                }
            },
            Inspection::NetName { geometry } => match reply_text(reply) {
                Some(name) => next is Class && next->Class_geometry == geometry && next->name@
                    == name,
                None => next == Inspection::PlainName { geometry },
            },
            Inspection::PlainName { geometry } => {
                &&& next is Class
                &&& next->Class_geometry == geometry
                &&& next->name@ == (match reply_text(reply) {
                    Some(name) => name,
                    None => number_name(id),
                })
            },
            Inspection::Class { geometry, name } => {
                &&& next is Found
                &&& describes(next->Found_0, id, name@, reply_class(reply), geometry)
            },
            Inspection::Skipped => next == Inspection::Skipped,
            Inspection::Found(window) => next == Inspection::Found(window),
        }
    }

    /// No stage past the second holds a window without pixels.
    pub open spec fn sound(self) -> bool {
        match self {
            Inspection::Position { extent, .. } => !extent.is_empty(),
            Inspection::NetName { geometry } | Inspection::PlainName { geometry }
            | Inspection::Class { geometry, .. } => geometry.width > 0 && geometry.height > 0,
            Inspection::Found(window) => window.geometry.width > 0 && window.geometry.height > 0,
            _ => true,
        }
    }

    /// How many questions may still be asked.
    pub open spec fn questions_left(self) -> nat {
        match self {
            Inspection::Attributes => 6,
            Inspection::Geometry { .. } => 5,
            Inspection::Position { .. } => 4,
            Inspection::NetName { .. } => 3,
            Inspection::PlainName { .. } => 2,
            Inspection::Class { .. } => 1,
            Inspection::Skipped | Inspection::Found(_) => 0,
        }
    }

    /// Takes in what came back for the window `id`.
    pub fn handle(self, id: u32, reply: &Reply) -> (next: Inspection)
        ensures
            self.leads_to(id, *reply, next),
            self.sound() ==> next.sound(),
    {
        match self {
            Inspection::Attributes => match reply {
                Reply::Attributes(attributes) => {
                    if attributes.override_redirect || !attributes.viewable
                        || !attributes.input_output {
                        Inspection::Skipped
                    } else {
                        Inspection::Geometry { visual: attributes.visual }
                    }
                },
                _ => Inspection::Skipped,
            },
            Inspection::Geometry { visual } => match reply {
                Reply::Geometry(extent) => {
                    if extent.width == 0 || extent.height == 0 {
                        Inspection::Skipped
                    } else {
                        Inspection::Position { visual, extent: *extent }
                    }
                },
                _ => Inspection::Skipped,
            },
            Inspection::Position { visual, extent } => {
                let (x, y): (i16, i16) = place_on_root(extent, reply);
                Inspection::NetName {
                    geometry: WindowGeometry {
                        x,
                        y,
                        width: extent.width,
                        height: extent.height,
                        depth: extent.depth,
                        visual,
                    },
                }
            },
            Inspection::NetName { geometry } => match read_string_property(reply) {
                Some(name) => Inspection::Class { geometry, name },
                None => Inspection::PlainName { geometry },
            },
            Inspection::PlainName { geometry } => {
                let name: String = match read_string_property(reply) {
                    Some(name) => name,
                    None => fallback_name(id),
                };
                Inspection::Class { geometry, name }
            },
            Inspection::Class { geometry, name } => {
                let (instance, class): (Option<String>, Option<String>) = read_wm_class(reply);
                Inspection::Found(
                    WindowInfo {
                        id,
                        name,
                        instance,
                        class,
                        workspace: "".to_owned(),
                        workspace_num: None,
                        i3_con_id: None,
                        tree_order: 0,
                        urgent: false,
                        focused: false,
                        geometry,
                    },
                )
            },
            Inspection::Skipped => Inspection::Skipped,
            Inspection::Found(window) => Inspection::Found(window),
        }
    }
}

/// Every answer brings an inspection closer to its end, whatever it is.
pub proof fn law_inspections_end(state: Inspection, id: u32, reply: Reply, next: Inspection)
    requires
        state.leads_to(id, reply, next),
        state.questions_left() > 0,
    ensures
        next.questions_left() < state.questions_left(),
{
}

/// A window that the server does not show, or that has no pixels, is never described: the
/// inspection ends there, whatever else is answered.
pub proof fn law_hidden_windows_are_skipped(
    id: u32,
    attributes: WindowAttributes,
    reply: Reply,
    next: Inspection,
    last: Inspection,
)
    requires
        !showable(attributes),
        Inspection::Attributes.leads_to(id, Reply::Attributes(attributes), next),
        next.leads_to(id, reply, last),
    ensures
        next == Inspection::Skipped,
        last == Inspection::Skipped,
{
}

/// The number with its sign, also where it is a plus.
pub open spec fn with_sign(number: int) -> Seq<char> {
    if number < 0 {
        text::signed_decimal(number)
    } else {
        seq!['+'] + text::signed_decimal(number)
    }
}

fn signed(number: i16) -> (result: String)
    ensures
        result@ == with_sign(number as int),
{
    let mut result: String = String::new();
    if number >= 0 {
        result.push('+');
    }
    text::push_signed(&mut result, number as i64);
    assert(result@ =~= with_sign(number as int));
    result
}

fn plain(number: u128) -> (result: String)
    ensures
        result@ == text::decimal(number as nat),
{
    let mut result: String = String::new();
    text::push_decimal(&mut result, number);
    assert(result@ =~= text::decimal(number as nat));
    result
}

/// What the list of windows shows as the class of a window: its class, else its instance, else a
/// dash.
pub open spec fn shown_class(window: WindowInfo) -> Seq<char> {
    match (window.class, window.instance) {
        (Some(class), _) => class@,
        (None, Some(instance)) => instance@,
        (None, None) => "-"@,
    }
}

/// The line of the window at `index` in the list of windows.
pub open spec fn line_of(index: nat, window: WindowInfo) -> Seq<char> {
    let geometry = window.geometry;
    text::padded_left(text::decimal(index + 1), 2) + ". 0x"@ + text::hex(window.id as nat, 8) + " "@
        + text::padded_left(text::decimal(geometry.width as nat), 4) + "x"@ + text::padded_right(
        text::decimal(geometry.height as nat),
        4,
    ) + " "@ + text::padded_left(with_sign(geometry.x as int), 5) + text::padded_left(
        with_sign(geometry.y as int),
        5,
    ) + " depth="@ + text::decimal(geometry.depth as nat) + " visual=0x"@ + text::hex(
        geometry.visual as nat,
        8,
    ) + " class="@ + shown_class(window) + " name="@ + window.name@
}

/// The line of a window in the list of windows.
pub fn window_line(index: usize, window: &WindowInfo) -> (line: String)
    ensures
        line@ == line_of(index as nat, *window),
{
    let geometry: WindowGeometry = window.geometry;
    let mut line: String = String::new();
    text::push_padded_left(&mut line, plain(index as u128 + 1).as_str(), 2);
    line.append(". 0x");
    text::push_hex(&mut line, window.id as u64, 8);
    line.append(" ");
    text::push_padded_left(&mut line, plain(geometry.width as u128).as_str(), 4);
    line.append("x");
    text::push_padded_right(&mut line, plain(geometry.height as u128).as_str(), 4);
    line.append(" ");
    text::push_padded_left(&mut line, signed(geometry.x).as_str(), 5);
    text::push_padded_left(&mut line, signed(geometry.y).as_str(), 5);
    line.append(" depth=");
    text::push_decimal(&mut line, geometry.depth as u128);
    line.append(" visual=0x");
    text::push_hex(&mut line, geometry.visual as u64, 8);
    line.append(" class=");
    match (&window.class, &window.instance) {
        (Some(class), _) => line.append(class.as_str()),
        (None, Some(instance)) => line.append(instance.as_str()),
        (None, None) => line.append("-"),
    }
    line.append(" name=");
    line.append(window.name.as_str());
    assert(line@ =~= line_of(index as nat, *window));
    line
}

/// The lines of the list of windows.
pub fn print_window_list(windows: &[WindowInfo]) -> (lines: Vec<String>)
    ensures
        lines@.len() == windows@.len(),
        forall|i: int|
            0 <= i < windows@.len() ==> (#[trigger] lines@[i])@ == line_of(i as nat, windows@[i]),
{
    let mut lines: Vec<String> = Vec::new();
    let mut i: usize = 0;
    while i < windows.len()
        invariant
            i <= windows@.len(),
            lines@.len() == i,
            forall|j: int|
                0 <= j < i ==> (#[trigger] lines@[j])@ == line_of(j as nat, windows@[j]),
        decreases windows@.len() - i,
    {
        lines.push(window_line(i, &windows[i]));
        i += 1;
    }
    lines
}

/// What tells one state of the desktop from another: for each window its line and its workspace.
pub open spec fn model_line(index: nat, window: WindowInfo) -> Seq<char> {
    line_of(index, window) + " workspace="@ + window.workspace@
}

/// What tells one state of the desktop from another.
pub fn model_key(windows: &[WindowInfo]) -> (key: Vec<String>)
    ensures
        key@.len() == windows@.len(),
        forall|i: int|
            0 <= i < windows@.len() ==> (#[trigger] key@[i])@ == model_line(i as nat, windows@[i]),
{
    let mut key: Vec<String> = Vec::new();
    let mut i: usize = 0;
    while i < windows.len()
        invariant
            i <= windows@.len(),
            key@.len() == i,
            forall|j: int|
                0 <= j < i ==> (#[trigger] key@[j])@ == model_line(j as nat, windows@[j]),
        decreases windows@.len() - i,
    {
        let mut line: String = window_line(i, &windows[i]);
        line.append(" workspace=");
        line.append(windows[i].workspace.as_str());
        key.push(line);
        i += 1;
    }
    key
}

/// The time that stands for now.
pub const CURRENT_TIME: u32 = 0;

/// Says that a message comes from a pager, not from an ordinary program.
pub const FROM_PAGER: u32 = 2;

/// Those who redirect the children of a window, and those who are told about them: in these two
/// roles a window manager gets messages that are sent to the root window.
pub const WINDOW_MANAGER_MASK: u32 = 0x18_0000;

/// The input focus goes back to the window under the pointer when its window goes away.
pub const REVERT_TO_POINTER_ROOT: u8 = 1;

/// A message that asks the window manager for something about a window.
#[derive(Debug, Clone, Copy, PartialEq, Eq)]
pub struct FocusMessage {
    /// The atom of what is asked for.
    pub kind: u32,
    /// The bits of one item of the data.
    pub format: u8,
    pub window: u32,
    pub data: [u32; 5],
}

/// Why a window could not be brought to the front.
#[derive(Debug, Clone, Copy, PartialEq, Eq, Structural)]
pub enum FocusError {
    Message(Fault),
    Flush,
}

impl FocusError {
    /// What went wrong, in words.
    pub open spec fn spec_message(self) -> Seq<char> {
        match self {
            FocusError::Message(Fault::Send) => {
                "failed to send _NET_ACTIVE_WINDOW client message"@
            },
            FocusError::Message(Fault::Reply) => {
                "_NET_ACTIVE_WINDOW client message was rejected by X11"@
            },
            FocusError::Flush => "failed to flush focus requests"@,
        }
    }

    /// What went wrong, in words.
    pub fn message(self) -> (message: &'static str)
        ensures
            message@ == self.spec_message(),
    {
        match self {
            FocusError::Message(Fault::Send) => "failed to send _NET_ACTIVE_WINDOW client message",
            FocusError::Message(Fault::Reply) => {
                "_NET_ACTIVE_WINDOW client message was rejected by X11"
            },
            FocusError::Flush => "failed to flush focus requests",
        }
    }
}

/// How far the bringing of a window to the front has come.
#[derive(Debug, Clone, Copy, PartialEq, Eq, Structural)]
pub enum FocusStage {
    /// Asking the window manager.
    Sending,
    SettingFocus,
    Raising,
    Flushing,
    Done,
    Failed(FocusError),
}

/// What bringing a window to the front asks for next.
#[derive(Debug, Clone, Copy, PartialEq, Eq)]
pub enum FocusAction {
    SendMessage { destination: u32, propagate: bool, mask: u32, message: FocusMessage },
    SetInputFocus { window: u32, revert_to: u8, time: u32 },
    /// Put the window above its siblings.
    Raise { window: u32 },
    Flush,
    Nothing,
}

/// The bringing of a window to the front: the window manager is asked first, and the server only
/// where that message was taken. What the server makes of it does not matter then.
#[derive(Debug, Clone, Copy, PartialEq, Eq, Structural)]
pub struct Focusing {
    pub stage: FocusStage,
    pub window: u32,
    pub root: u32,
    /// The atom `_NET_ACTIVE_WINDOW`.
    pub kind: u32,
}

impl Focusing {
    /// What to ask for.
    pub open spec fn next(self) -> FocusAction {
        match self.stage {
            FocusStage::Sending => {
                FocusAction::SendMessage {
                    destination: self.root,
                    propagate: false,
                    mask: WINDOW_MANAGER_MASK,
                    message: FocusMessage {
                        kind: self.kind,
                        format: 32,
                        window: self.window,
                        data: [FROM_PAGER, CURRENT_TIME, 0, 0, 0],
                    },
                }
            },
            FocusStage::SettingFocus => {
                FocusAction::SetInputFocus {
                    window: self.window,
                    revert_to: REVERT_TO_POINTER_ROOT,
                    time: CURRENT_TIME,
                }
            },
            FocusStage::Raising => FocusAction::Raise { window: self.window },
            FocusStage::Flushing => FocusAction::Flush,
            FocusStage::Done | FocusStage::Failed(_) => FocusAction::Nothing,
        }
    }

    pub open spec fn at(self, stage: FocusStage) -> Focusing {
        Focusing { stage, ..self }
    }

    /// After an answer.
    pub open spec fn after(self, answer: Result<(), Fault>) -> Focusing {
        match (self.stage, answer) {
            (FocusStage::Sending, Ok(_)) => self.at(FocusStage::SettingFocus),
            (FocusStage::Sending, Err(fault)) => {
                self.at(FocusStage::Failed(FocusError::Message(fault)))
            },
            (FocusStage::SettingFocus, _) => self.at(FocusStage::Raising),
            (FocusStage::Raising, _) => self.at(FocusStage::Flushing),
            (FocusStage::Flushing, Ok(_)) => self.at(FocusStage::Done),
            (FocusStage::Flushing, Err(_)) => self.at(FocusStage::Failed(FocusError::Flush)),
            (FocusStage::Done, _) | (FocusStage::Failed(_), _) => self,
        }
    }

    /// What to ask for.
    pub fn action(&self) -> (action: FocusAction)
        ensures
            action == self.next(),
    {
        match self.stage {
            FocusStage::Sending => {
                let message: FocusMessage = FocusMessage {
                    kind: self.kind,
                    format: 32,
                    window: self.window,
                    data: [FROM_PAGER, CURRENT_TIME, 0, 0, 0],
                };
                FocusAction::SendMessage {
                    destination: self.root,
                    propagate: false,
                    mask: WINDOW_MANAGER_MASK,
                    message,
                }
            },
            FocusStage::SettingFocus => {
                FocusAction::SetInputFocus {
                    window: self.window,
                    revert_to: REVERT_TO_POINTER_ROOT,
                    time: CURRENT_TIME,
                }
            },
            FocusStage::Raising => FocusAction::Raise { window: self.window },
            FocusStage::Flushing => FocusAction::Flush,
            FocusStage::Done | FocusStage::Failed(_) => FocusAction::Nothing,
        }
    }

    /// Takes in what came of the action.
    pub fn handle(&mut self, answer: Result<(), Fault>)
        ensures
            *final(self) == old(self).after(answer),
    {
        self.stage = match (self.stage, answer) {
            (FocusStage::Sending, Ok(_)) => FocusStage::SettingFocus,
            (FocusStage::Sending, Err(fault)) => FocusStage::Failed(FocusError::Message(fault)),
            (FocusStage::SettingFocus, _) => FocusStage::Raising,
            (FocusStage::Raising, _) => FocusStage::Flushing,
            (FocusStage::Flushing, Ok(_)) => FocusStage::Done,
            (FocusStage::Flushing, Err(_)) => FocusStage::Failed(FocusError::Flush),
            (stage, _) => stage,
        };
    }
}

/// Begins to bring a window to the front, on a screen with the given root window.
pub fn focus_window(window: u32, root: u32, atoms: &Atoms) -> (focusing: Focusing)
    ensures
        focusing == (Focusing {
            stage: FocusStage::Sending,
            window,
            root,
            kind: atoms.net_active_window,
        }),
{
    Focusing { stage: FocusStage::Sending, window, root, kind: atoms.net_active_window }
}

/// After a run of answers.
pub open spec fn focusing_after(
    focusing: Focusing,
    answers: Seq<Result<(), Fault>>,
) -> Focusing
    decreases answers.len(),
{
    if answers.len() == 0 {
        focusing
    } else {
        focusing_after(focusing, answers.drop_last()).after(answers.last())
    }
}

/// Where the window manager's message is not taken, that is the error, and nothing else is ever
/// asked for.
pub proof fn law_refused_message_ends_the_focus(
    focusing: Focusing,
    fault: Fault,
    answers: Seq<Result<(), Fault>>,
)
    requires
        focusing.stage == FocusStage::Sending,
    ensures
        ({
            let end = focusing_after(focusing.after(Err(fault)), answers);
            &&& end.stage == FocusStage::Failed(FocusError::Message(fault))
            &&& end.next() == FocusAction::Nothing
        }),
    decreases answers.len(),
{
    if answers.len() > 0 {
        law_refused_message_ends_the_focus(focusing, fault, answers.drop_last());
    }
}

/// Where the message is taken, the server is asked to focus the window and to put it on top,
/// whatever becomes of the two requests, and the end is an error only where they cannot be
/// flushed.
pub proof fn law_taken_message_focuses_and_raises(
    focusing: Focusing,
    focused: Result<(), Fault>,
    raised: Result<(), Fault>,
    flushed: Result<(), Fault>,
)
    requires
        focusing.stage == FocusStage::Sending,
    ensures
        ({
            let taken = focusing.after(Ok(()));
            let then = taken.after(focused);
            let last = then.after(raised);
            &&& taken.next() == (FocusAction::SetInputFocus {
                window: focusing.window,
                revert_to: REVERT_TO_POINTER_ROOT,
                time: CURRENT_TIME,
            })
            &&& then.next() == (FocusAction::Raise { window: focusing.window })
            &&& last.next() == FocusAction::Flush
            &&& last.after(flushed).stage == (if flushed is Ok {
                FocusStage::Done
            } else {
                FocusStage::Failed(FocusError::Flush)
            })
        }),
{
}

/// A list without repetitions keeps the order of the list, and of a window that is named again
/// the first mention. `places` is where each stands in the list.
pub proof fn law_distinct_keeps_first_mentions(ids: Seq<u32>) -> (places: Seq<int>)
    ensures
        places.len() == first_occurrences(ids).len(),
        forall|k: int|
            0 <= k < places.len() ==> 0 <= #[trigger] places[k] < ids.len() && ids[places[k]]
                == first_occurrences(ids)[k],
        forall|k: int, l: int|
            0 <= k < l < places.len() ==> #[trigger] places[k] < #[trigger] places[l],
        forall|k: int, i: int|
            0 <= k < places.len() && 0 <= i < places[k] ==> #[trigger] ids[i] != ids[
                #[trigger] places[k]],
    decreases ids.len(),
{
    if ids.len() == 0 {
        seq![]
    } else {
        let rest = ids.drop_last();
        let shorter = law_distinct_keeps_first_mentions(rest);
        let before = first_occurrences(rest);
        law_distinct_names_each_window_once(rest);
        assert forall|i: int| 0 <= i < rest.len() implies #[trigger] ids[i] == rest[i] by {}
        if listed(before, ids.last()) {
            shorter
        } else {
            assert forall|i: int| 0 <= i < rest.len() implies #[trigger] ids[i]
                != ids.last() by {
                if ids[i] == ids.last() {
                    assert(rest[i] == ids.last());
                    assert(listed(rest, ids.last()));
                }
            }
            shorter.push(ids.len() - 1)
        }
    }
}

/// The window manager's list in stacking order is asked for first, then its plain list, and the
/// children of the root window last; the first of them that names a window is used.
pub proof fn law_sources_are_tried_in_order(count: nat, root: u32, atoms: Atoms)
    ensures
        ({
            let first = WindowSource::StackingList;
            let second = next_source(first, 0);
            &&& second is Some
            &&& ({
                let third = next_source(second->0, 0);
                &&& third is Some
                &&& next_source(third->0, 0) is None
                &&& first.asks(root, atoms) == (ListQuestion::Property {
                    window: root,
                    property: atoms.net_client_list_stacking,
                    kind: 33,
                    length: 0x10_0000,
                })
                &&& second->0.asks(root, atoms) == (ListQuestion::Property {
                    window: root,
                    property: atoms.net_client_list,
                    kind: 33,
                    length: 0x10_0000,
                })
                &&& third->0.asks(root, atoms) == (ListQuestion::Children { window: root })
            })
        }),
        forall|source: WindowSource| count > 0 ==> #[trigger] next_source(source, count) is None,
{
}

/// The pieces of a property are what stands between its zeros: two pieces meet at each zero, and
/// bytes without a zero are one piece.
pub proof fn law_zeros_divide_pieces(before: Seq<u8>, after: Seq<u8>)
    ensures
        pieces(before + seq![0u8] + after) == pieces(before) + pieces(after),
        (forall|i: int| 0 <= i < before.len() ==> #[trigger] before[i] != 0) ==> pieces(before)
            == seq![before],
{
    let none: Seq<u8> = seq![];
    assert(before + seq![0u8] + after =~= before + (seq![0u8] + after));
    lemma_pieces_divide(none, before, after);
    if forall|i: int| 0 <= i < before.len() ==> #[trigger] before[i] != 0 {
        lemma_pieces_past(none, before, none);
        assert(before + none =~= before);
        assert(none + before =~= before);
    }
}

proof fn lemma_pieces_divide(piece: Seq<u8>, before: Seq<u8>, after: Seq<u8>)
    ensures
        pieces_from(piece, before + (seq![0u8] + after)) == pieces_from(piece, before) + pieces(
            after,
        ),
    decreases before.len(),
{
    let rest = seq![0u8] + after;
    let whole = before + rest;
    if before.len() == 0 {
        assert(whole =~= rest);
        assert(whole.skip(1) =~= after);
    } else {
        assert(whole[0] == before[0]);
        assert(whole.skip(1) =~= before.skip(1) + rest);
        if before[0] == 0 {
            lemma_pieces_divide(seq![], before.skip(1), after);
            assert(pieces_from(piece, whole) =~= pieces_from(piece, before) + pieces(after));
        } else {
            lemma_pieces_divide(piece.push(before[0]), before.skip(1), after);
        }
    }
}

/// The texts of pieces are those of the first ones followed by those of the others; a piece of
/// which nothing is left holds none.
pub proof fn law_texts_come_piece_by_piece(
    before: Seq<Seq<u8>>,
    after: Seq<Seq<u8>>,
    content: Seq<char>,
)
    ensures
        texts_in(before + after) == texts_in(before) + texts_in(after),
        text::trimmed(content).len() > 0 ==> texts_in(seq![vstd::utf8::encode_utf8(content)])
            == seq![text::trimmed(content)],
        text::trimmed(content).len() == 0 ==> texts_in(seq![vstd::utf8::encode_utf8(content)])
            == Seq::<Seq<char>>::empty(),
    decreases after.len(),
{
    let none: Seq<Seq<u8>> = seq![];
    if after.len() == 0 {
        assert(before + after =~= before);
        assert(texts_in(before) + texts_in(after) =~= texts_in(before));
    } else {
        law_texts_come_piece_by_piece(before, after.drop_last(), content);
        assert((before + after).drop_last() =~= before + after.drop_last());
        assert((before + after).last() == after.last());
        assert(texts_in(before + after) =~= texts_in(before) + texts_in(after));
    }
    let bytes = vstd::utf8::encode_utf8(content);
    text::law_encoded_text_reads_back(content);
    if bytes.len() == 0 {
        lemma_nothing_encodes_nothing(content);
    }
    assert(seq![bytes].drop_last() =~= none);
    assert(texts_in(none) =~= seq![]);
}

/// What is no property, or one that is not there, is empty or does not hold bytes, holds no name
/// and no class.
pub proof fn law_only_bytes_are_read_as_text(reply: Reply)
    requires
        match reply {
            Reply::Property(property) => {
                property.kind == 0 || property.format != 8 || property.value@.len() == 0
            },
            _ => true,
        },
    ensures
        reply_text(reply) is None,
        reply_class(reply).0 is None,
        reply_class(reply).1 is None,
{
}

/// A window is asked for its attributes, its place and size, its place on the root window, its
/// two names and its class, and for nothing of another window.
pub proof fn law_questions_are_about_the_window(
    id: u32,
    root: u32,
    atoms: Atoms,
    state: Inspection,
)
    ensures
        state.asks(id, root, atoms) == (match state {
            Inspection::Attributes => Some(Question::Attributes { window: id }),
            Inspection::Geometry { .. } => Some(Question::Geometry { window: id }),
            Inspection::Position { .. } => {
                Some(Question::Position { window: id, destination: root })
            },
            Inspection::NetName { .. } => Some(
                Question::Property {
                    window: id,
                    property: atoms.net_wm_name,
                    kind: atoms.utf8_string,
                    length: 1024,
                },
            ),
            Inspection::PlainName { .. } => Some(
                Question::Property { window: id, property: 39, kind: 31, length: 1024 },
            ),
            Inspection::Class { .. } => Some(
                Question::Property { window: id, property: 67, kind: 31, length: 1024 },
            ),
            Inspection::Skipped => None,
            Inspection::Found(_) => None,
        }),
{
}

/// What a window's answers say of it is what it is described by: a window that is on screen, can
/// be drawn to, is not left alone by the window manager and has pixels stands where the root
/// window has it, and is named by the first of its two names that there is, or by its number.
/// Every other window is skipped.
pub proof fn law_windows_are_described_by_their_answers(
    id: u32,
    attributes: WindowAttributes,
    extent: Extent,
    position: Reply,
    net_name: Reply,
    plain_name: Reply,
    class: Reply,
    states: Seq<Inspection>,
)
    requires
        states.len() == 6,
        Inspection::Attributes.leads_to(id, Reply::Attributes(attributes), states[0]),
        states[0].leads_to(id, Reply::Geometry(extent), states[1]),
        states[1].leads_to(id, position, states[2]),
        states[2].leads_to(id, net_name, states[3]),
        reply_text(net_name) is None ==> states[3].leads_to(id, plain_name, states[4]),
        reply_text(net_name) is Some ==> states[4] == states[3],
        states[4].leads_to(id, class, states[5]),
    ensures
        if !attributes.override_redirect && attributes.viewable && attributes.input_output
            && extent.width > 0 && extent.height > 0 {
            &&& states[5] matches Inspection::Found(window)
            &&& window.id == id
            &&& window.name@ == (if reply_text(net_name) is Some {
                reply_text(net_name)->0
            } else if reply_text(plain_name) is Some {
                reply_text(plain_name)->0
            } else {
                "0x"@ + text::hex(id as nat, 8)
            })
            &&& text::option_view(window.instance) == reply_class(class).0
            &&& text::option_view(window.class) == reply_class(class).1
            &&& window.workspace@ == ""@
            &&& window.workspace_num is None
            &&& window.i3_con_id is None
            &&& window.tree_order == 0
            &&& !window.urgent
            &&& !window.focused
            &&& window.geometry.width == extent.width
            &&& window.geometry.height == extent.height
            &&& window.geometry.depth == extent.depth
            &&& window.geometry.visual == attributes.visual
            &&& match position {
                Reply::Position { same_screen: true, x, y } => {
                    window.geometry.x == x && window.geometry.y == y
                },
                _ => window.geometry.x == extent.x && window.geometry.y == extent.y,
            }
        } else {
            states[5] == Inspection::Skipped
        },
{
}

/// An answer of another sort than was asked for, or none, about the attributes or the size skips
/// the window.
pub proof fn law_unanswered_windows_are_skipped(
    id: u32,
    reply: Reply,
    visual: u32,
    next: Inspection,
    other: Inspection,
)
    requires
        Inspection::Attributes.leads_to(id, reply, next),
        (Inspection::Geometry { visual }).leads_to(id, reply, other),
    ensures
        !(reply is Attributes) ==> next == Inspection::Skipped,
        !(reply is Geometry) ==> other == Inspection::Skipped,
{
}

/// The line of a window tells its number in the list from one on, its number on the server, its
/// size, place, depth and visual, its class, or else its instance, or else a dash, and its name.
pub proof fn law_lines_tell_everything(index: nat, window: WindowInfo)
    ensures
        ({
            let class = if window.class is Some {
                window.class->0@
            } else if window.instance is Some {
                window.instance->0@
            } else {
                "-"@
            };
            let tail = " depth="@ + text::decimal(window.geometry.depth as nat) + " visual=0x"@
                + text::hex(window.geometry.visual as nat, 8) + " class="@ + class + " name="@
                + window.name@;
            let x = (if window.geometry.x < 0 {
                seq!['-'] + text::decimal((-window.geometry.x) as nat)
            } else {
                seq!['+'] + text::decimal(window.geometry.x as nat)
            });
            let y = (if window.geometry.y < 0 {
                seq!['-'] + text::decimal((-window.geometry.y) as nat)
            } else {
                seq!['+'] + text::decimal(window.geometry.y as nat)
            });
            let head = text::padded_left(text::decimal(index + 1), 2) + ". 0x"@ + text::hex(
                window.id as nat,
                8,
            ) + " "@ + text::padded_left(text::decimal(window.geometry.width as nat), 4) + "x"@
                + text::padded_right(text::decimal(window.geometry.height as nat), 4) + " "@;
            &&& line_of(index, window) == head + text::padded_left(x, 5) + text::padded_left(y, 5)
                + tail
            &&& model_line(index, window) == line_of(index, window) + " workspace="@
                + window.workspace@
        }),
{
    let class = if window.class is Some {
        window.class->0@
    } else if window.instance is Some {
        window.instance->0@
    } else {
        "-"@
    };
    let tail = " depth="@ + text::decimal(window.geometry.depth as nat) + " visual=0x"@
        + text::hex(window.geometry.visual as nat, 8) + " class="@ + class + " name="@
        + window.name@;
    let x = with_sign(window.geometry.x as int);
    let y = with_sign(window.geometry.y as int);
    let head = text::padded_left(text::decimal(index + 1), 2) + ". 0x"@ + text::hex(
        window.id as nat,
        8,
    ) + " "@ + text::padded_left(text::decimal(window.geometry.width as nat), 4) + "x"@
        + text::padded_right(text::decimal(window.geometry.height as nat), 4) + " "@;
    assert(line_of(index, window) =~= head + text::padded_left(x, 5) + text::padded_left(y, 5)
        + tail);
}

/// The window manager is asked first, through the root window and as a pager would, for the
/// window that is to come to the front.
pub proof fn law_the_window_manager_is_asked_first(focusing: Focusing)
    requires
        focusing.stage == FocusStage::Sending,
    ensures
        focusing.next() matches FocusAction::SendMessage { destination, propagate, mask, message }
            && {
            &&& destination == focusing.root
            &&& !propagate
            &&& mask == 0x18_0000
            &&& message.kind == focusing.kind
            &&& message.format == 32
            &&& message.window == focusing.window
            &&& message.data@ == seq![2u32, 0, 0, 0, 0]
        },
        forall|answer: Result<(), Fault>|
            (#[trigger] focusing.after(answer)).window == focusing.window && focusing.after(
                answer,
            ).root == focusing.root && focusing.after(answer).kind == focusing.kind,
{
    let action = focusing.next();
    assert(action->message.data@ =~= seq![2u32, 0, 0, 0, 0]);
}

/// A property that is there, of any type, and holds bytes is read as text: a name in it is read
/// back without the white space around it, whatever may stand past a zero, and of two texts that
/// are each closed by a zero the first is the instance and the second the class.
pub proof fn law_bytes_of_any_type_are_read(
    named: Property,
    classed: Property,
    name: Seq<char>,
    instance: Seq<char>,
    class: Seq<char>,
    rest: Seq<u8>,
)
    requires
        named.kind != 0,
        named.format == 8,
        text::without_zero(name),
        named.value@ == vstd::utf8::encode_utf8(name).push(0) + rest,
        classed.kind != 0,
        classed.format == 8,
        text::without_zero(instance),
        text::without_zero(class),
        text::trimmed(instance).len() > 0,
        text::trimmed(class).len() > 0,
        classed.value@ == vstd::utf8::encode_utf8(instance).push(0) + vstd::utf8::encode_utf8(
            class,
        ).push(0),
    ensures
        text::trimmed(name).len() > 0 ==> reply_text(Reply::Property(named)) == Some(
            text::trimmed(name),
        ),
        text::trimmed(name).len() == 0 ==> reply_text(Reply::Property(named)) is None,
        reply_class(Reply::Property(classed)).0 == Some(text::trimmed(instance)),
        reply_class(Reply::Property(classed)).1 == Some(text::trimmed(class)),
{
    law_name_reads_back(named, name, rest);
    law_class_reads_back(classed, instance, class);
}

/// Each failure to bring a window to the front is told in its own words.
pub proof fn law_focus_errors_are_told_in_words(error: FocusError)
    ensures
        error.spec_message() == (match error {
            FocusError::Message(Fault::Send) => {
                "failed to send _NET_ACTIVE_WINDOW client message"@
            },
            FocusError::Message(Fault::Reply) => {
                "_NET_ACTIVE_WINDOW client message was rejected by X11"@
            },
            FocusError::Flush => "failed to flush focus requests"@,
        }),
{
}

}
