//! String columns held as views over an arena of bytes.

use crate::types::{About, Error, ErrorCode, Failure, Subject};
use vstd::prelude::*;
use vstd::slice::slice_subrange;
use vstd::string::*;
use vstd::utf8::{decode_utf8, encode_utf8, valid_utf8};

verus! {

/// How many bytes a view keeps inside itself.
pub const INLINE_BYTES: usize = 12;

/// Where the bytes of one row are: inside the view when they are few, in an arena when not.
#[derive(Debug, Clone, Copy)]
pub enum StringView {
    Inline { len: usize, bytes: [u8; 12] },
    Long { start: usize, len: usize },
}

impl StringView {
    /// The bytes of this view over that arena, and nothing for a view that points past it.
    pub open spec fn seen_in(&self, arena: Seq<u8>) -> Option<Seq<u8>> {
        match self {
            StringView::Inline { len, bytes } => if *len <= 12 {
                Some(bytes@.subrange(0, *len as int))
            } else {
                None
            },
            StringView::Long { start, len } => if *start + *len <= arena.len() {
                Some(arena.subrange(*start as int, *start + *len))
            } else {
                None
            },
        }
    }

    /// The view of no bytes.
    pub fn empty() -> (view: StringView)
        ensures
            forall|arena: Seq<u8>| #[trigger] view.seen_in(arena) == Some(Seq::<u8>::empty()),
    {
        let view = StringView::Inline { len: 0, bytes: [0u8;12] };
        assert forall|arena: Seq<u8>| #[trigger] view.seen_in(arena) == Some(Seq::<u8>::empty()) by {
            assert(view->bytes@.subrange(0, 0) =~= Seq::<u8>::empty());
        }
        view
    }

    /// The view of some bytes that an arena holds from `start` on.
    pub fn over(bytes: &[u8], start: usize) -> (view: StringView)
        ensures
            bytes@.len() <= 12 ==> forall|arena: Seq<u8>|
                #[trigger] view.seen_in(arena) == Some(bytes@),
            bytes@.len() > 12 ==> view == (StringView::Long { start, len: bytes.len() }),
    {
        if bytes.len() > INLINE_BYTES {
            return StringView::Long { start, len: bytes.len() };
        }
        let mut held: [u8; 12] = [0u8;12];
        let mut at: usize = 0;
        while at < bytes.len()
            invariant
                at <= bytes.len() <= 12,
                held@.len() == 12,
                forall|i: int| 0 <= i < at ==> #[trigger] held@[i] == bytes@[i],
            decreases bytes.len() - at,
        {
            held[at] = bytes[at];
            at += 1;
        }
        let view = StringView::Inline { len: bytes.len(), bytes: held };
        assert forall|arena: Seq<u8>| #[trigger] view.seen_in(arena) == Some(bytes@) by {
            assert(held@.subrange(0, bytes@.len() as int) =~= bytes@);
        }
        view
    }

    /// The view of a text short enough to need no arena.
    pub fn inline(text: &str) -> (view: StringView)
        requires
            encode_utf8(text@).len() <= 12,
        ensures
            forall|arena: Seq<u8>| #[trigger] view.seen_in(arena) == Some(encode_utf8(text@)),
    {
        StringView::over(text.as_bytes(), 0)
    }

    /// Whether the bytes are in the view itself.
    pub fn is_inline(&self) -> (inside: bool)
        ensures
            inside == (*self is Inline),
    {
        matches!(self, StringView::Inline { .. })
    }

    /// How many bytes the row has.
    pub fn len(&self) -> (len: usize)
        ensures
            forall|arena: Seq<u8>|
                (#[trigger] self.seen_in(arena)) matches Some(bytes) ==> bytes.len() == len,
    {
        match self {
            StringView::Inline { len, .. } => *len,
            StringView::Long { len, .. } => *len,
        }
    }

    /// The bytes of this view over that arena.
    pub fn bytes_in<'a>(&'a self, arena: &'a [u8]) -> (bytes: Option<&'a [u8]>)
        ensures
            match bytes {
                Some(bytes) => self.seen_in(arena@) == Some(bytes@),
                None => self.seen_in(arena@) is None,
            },
    {
        match self {
            StringView::Inline { len, bytes } => {
                if *len <= INLINE_BYTES {
                    Some(slice_subrange(bytes.as_slice(), 0, *len))
                } else {
                    None
                }
            },
            StringView::Long { start, len } => {
                if *len <= arena.len() && *start <= arena.len() - *len {
                    Some(slice_subrange(arena, *start, *start + *len))
                } else {
                    None
                }
            },
        }
    }
}

/// A column of strings that owns its arena.
#[derive(Debug)]
pub struct StringColumn {
    pub views: Vec<StringView>,
    pub arena: Vec<u8>,
}

impl StringColumn {
    /// Every view is of bytes that are there.
    pub open spec fn wf(&self) -> bool {
        forall|i: int|
            0 <= i < self.views@.len() ==> (#[trigger] self.views@[i]).seen_in(
                self.arena@,
            ) is Some
    }

    /// The bytes of a row.
    pub open spec fn row(&self, at: int) -> Seq<u8> {
        self.views@[at].seen_in(self.arena@)->Some_0
    }

    pub fn new() -> (column: StringColumn)
        ensures
            column.wf(),
            column.views@.len() == 0,
    {
        StringColumn { views: Vec::new(), arena: Vec::new() }
    }

    /// How many rows there are.
    pub fn len(&self) -> (len: usize)
        ensures
            len == self.views@.len(),
    {
        self.views.len()
    }

    /// Whether there are no rows.
    pub fn is_empty(&self) -> (empty: bool)
        ensures
            empty == (self.views@.len() == 0),
    {
        self.views.len() == 0
    }

    /// One more row, of those bytes.
    pub fn push_bytes(&mut self, bytes: &[u8])
        requires
            old(self).wf(),
        ensures
            final(self).wf(),
            final(self).views@.len() == old(self).views@.len() + 1,
            final(self).row(old(self).views@.len() as int) == bytes@,
            forall|i: int|
                0 <= i < old(self).views@.len() ==> #[trigger] final(self).row(i) == old(self).row(
                    i,
                ),
    {
        let ghost before = *self;
        let start: usize = self.arena.len();
        let view = StringView::over(bytes, start);
        if bytes.len() > INLINE_BYTES {
            self.arena.extend_from_slice(bytes);
            assert(self.arena@ =~= before.arena@ + bytes@);
            assert(self.arena@.subrange(start as int, start + bytes@.len()) =~= bytes@);
        }
        self.views.push(view);
        proof {
            assert forall|i: int| 0 <= i < before.views@.len() implies (
            #[trigger] self.views@[i]).seen_in(self.arena@) == before.views@[i].seen_in(
                before.arena@,
            ) by {
                assert(before.views@[i].seen_in(before.arena@) is Some);
                match before.views@[i] {
                    StringView::Long { start: from, len } => {
                        assert(self.arena@.subrange(from as int, from + len)
                            =~= before.arena@.subrange(from as int, from + len));
                    },
                    _ => {},
                }
            }
            assert forall|i: int| 0 <= i < before.views@.len() implies #[trigger] self.row(i)
                == before.row(i) by {
                assert(self.views@[i].seen_in(self.arena@) == before.views@[i].seen_in(
                    before.arena@,
                ));
            }
            assert(self.views@[before.views@.len() as int].seen_in(self.arena@) == Some(bytes@));
            assert forall|i: int| 0 <= i < self.views@.len() implies (
            #[trigger] self.views@[i]).seen_in(self.arena@) is Some by {
                if i < before.views@.len() {
                    assert(before.views@[i].seen_in(before.arena@) is Some);
                }
            }
        }
    }

    /// One more row, of that text.
    pub fn push(&mut self, text: &str)
        requires
            old(self).wf(),
        ensures
            final(self).wf(),
            final(self).views@.len() == old(self).views@.len() + 1,
            final(self).row(old(self).views@.len() as int) == encode_utf8(text@),
            forall|i: int|
                0 <= i < old(self).views@.len() ==> #[trigger] final(self).row(i) == old(self).row(
                    i,
                ),
    {
        self.push_bytes(text.as_bytes());
    }

    /// The bytes of a row, and nothing past the last.
    pub fn bytes(&self, index: usize) -> (bytes: Option<&[u8]>)
        requires
            self.wf(),
        ensures
            match bytes {
                Some(bytes) => index < self.views@.len() && bytes@ == self.row(index as int),
                None => index >= self.views@.len(),
            },
    {
        if index >= self.views.len() {
            return None;
        }
        assert(self.views@[index as int].seen_in(self.arena@) is Some);
        self.views[index].bytes_in(self.arena.as_slice())
    }

    /// The text of a row, and nothing past the last or where the bytes are not text.
    pub fn get(&self, index: usize) -> (text: Option<&str>)
        requires
            self.wf(),
        ensures
            text is Some <==> index < self.views@.len() && valid_utf8(self.row(index as int)),
            text matches Some(text) ==> text@ == decode_utf8(self.row(index as int)),
    {
        match self.bytes(index) {
            Some(bytes) => text_of(bytes),
            None => None,
        }
    }

    /// The views, one per row.
    pub fn views(&self) -> (views: &[StringView])
        ensures
            views@ == self.views@,
    {
        self.views.as_slice()
    }

    /// The bytes the long rows are in.
    pub fn arena(&self) -> (arena: &[u8])
        ensures
            arena@ == self.arena@,
    {
        self.arena.as_slice()
    }
}

/// How the error of `std::str::from_utf8` is printed for bytes that are not UTF-8.
pub uninterp spec fn utf8_complaint(bytes: Seq<u8>) -> Seq<char>;

/// Some bytes read as text, or what is wrong with them.
///
/// Calls `std::str::from_utf8`, and claims of it that it answers exactly for the bytes that are
/// UTF-8, with the characters they encode, and that its error is printed by the bytes alone.
#[verifier::external_body]
pub(crate) fn read_text(bytes: &[u8]) -> (text: Result<&str, String>)
    ensures
        text is Ok <==> valid_utf8(bytes@),
        text matches Ok(text) ==> text@ == decode_utf8(bytes@),
        text matches Err(complaint) ==> complaint@ == utf8_complaint(bytes@),
{
    std::str::from_utf8(bytes).map_err(|error| error.to_string())
}

/// Some bytes read as text.
pub(crate) fn text_of(bytes: &[u8]) -> (text: Option<&str>)
    ensures
        text is Some <==> valid_utf8(bytes@),
        text matches Some(text) ==> text@ == decode_utf8(bytes@),
{
    match read_text(bytes) {
        Ok(text) => Some(text),
        Err(_) => None,
    }
}

/// The failure of reading bytes as text that are not UTF-8.
pub open spec fn not_text(complaint: Seq<char>) -> Failure {
    Failure {
        code: ErrorCode::Conversion,
        message: "invalid UTF-8 in VARCHAR: "@ + complaint,
        about: About::Nothing,
    }
}

/// The failure of reading bytes as text that are not UTF-8, given what is wrong with them.
pub fn not_text_error(complaint: &str) -> (error: Error)
    ensures
        error@ == not_text(complaint@),
{
    let mut message = "invalid UTF-8 in VARCHAR: ".to_owned();
    message.append(complaint);
    Error { code: ErrorCode::Conversion, message, about: Subject::Nothing }
}

/// A view of few bytes is those bytes, whatever the arena holds, and a longer one is a run of the arena.
/// A view that reaches past what holds its bytes shows nothing.
pub proof fn law_a_view_is_the_bytes_it_covers(view: StringView, arena: Seq<u8>)
    ensures
        match view {
            StringView::Inline { len, bytes } => (view.seen_in(arena) is Some <==> len <= 12) && (
            len <= 12 ==> view.seen_in(arena)->Some_0.len() == len && forall|i: int|
                0 <= i < len ==> #[trigger] view.seen_in(arena)->Some_0[i] == bytes@[i]),
            StringView::Long { start, len } => (view.seen_in(arena) is Some <==> start + len
                <= arena.len()) && (start + len <= arena.len() ==> view.seen_in(
                arena,
            )->Some_0.len() == len && forall|i: int|
                0 <= i < len ==> #[trigger] view.seen_in(arena)->Some_0[i] == arena[start + i]),
        },
{
}

/// Bytes that spell no text fail to convert, and the failure says what is wrong with them.
pub proof fn law_bytes_that_spell_no_text_fail_to_convert(complaint: Seq<char>)
    ensures
        not_text(complaint).code is Conversion,
        complaint.is_suffix_of(not_text(complaint).message),
{
}

} // verus!
