//! The XML text of property lists, as far as it takes to find the dates in it.
//!
//! A reader of property lists goes through a text token by token until the text ends or breaks a
//! rule. The functions here follow it, to tell beforehand whether it comes to a date that it
//! cannot take.

use crate::literals;
use crate::literals::{
    is_spelled_at, is_spelled_uncased_at, number, read_number, spelled_at, spelled_uncased_at,
    DateText, COLON, MINUS, SLASH,
};
use crate::text;
use vstd::prelude::*;
use vstd::slice::slice_subrange;
use vstd::utf8::*;

verus! {

pub const LESS: u8 = 0x3c;

pub const GREATER: u8 = 0x3e;

pub const AMPERSAND: u8 = 0x26;

pub const SEMICOLON: u8 = 0x3b;

pub const HASH: u8 = 0x23;

pub const LOWER_X: u8 = 0x78;

pub const QUOTE: u8 = 0x22;

pub const APOSTROPHE: u8 = 0x27;

pub const OPENING_BRACKET: u8 = 0x5b;

pub const CLOSING_BRACKET: u8 = 0x5d;

/// Where the text behind the first `word` from `i` on begins.
pub open spec fn behind(bytes: Seq<u8>, i: int, word: Seq<char>) -> Option<int>
    decreases bytes.len() - i,
{
    if i > bytes.len() - word.len() {
        None
    } else if spelled_at(bytes, i, word) {
        Some(i + word.len())
    } else {
        behind(bytes, i + 1, word)
    }
}

/// Finds where the text behind the first `word` from `i` on begins.
fn find_behind(bytes: &[u8], i: usize, word: &str) -> (r: Option<usize>)
    ensures
        match r {
            Some(end) => behind(bytes@, i as int, word@) == Some(end as int) && i <= end
                <= bytes@.len(),
            None => behind(bytes@, i as int, word@) is None,
        },
{
    let n: usize = word.unicode_len();
    let mut j: usize = i;
    while n <= bytes.len() && j <= bytes.len() - n
        invariant
            n == word@.len(),
            i <= j,
            behind(bytes@, i as int, word@) == behind(bytes@, j as int, word@),
        decreases bytes@.len() - j,
    {
        if is_spelled_at(bytes, j, word) {
            return Some(j + n);
        }
        if j == bytes.len() {
            return None;
        }
        j = j + 1;
    }
    None
}

/// Where the `>` that ends a tag stands: the first from `i` on outside quotes, where `quote` is
/// the quote that is open at `i`, or zero.
pub open spec fn tag_end(bytes: Seq<u8>, i: int, quote: u8) -> Option<int>
    decreases bytes.len() - i,
{
    if i >= bytes.len() {
        None
    } else if quote != 0 {
        tag_end(
            bytes,
            i + 1,
            if bytes[i] == quote {
                0
            } else {
                quote
            },
        )
    } else if bytes[i] == GREATER {
        Some(i)
    } else {
        tag_end(
            bytes,
            i + 1,
            if bytes[i] == QUOTE || bytes[i] == APOSTROPHE {
                bytes[i]
            } else {
                0
            },
        )
    }
}

/// Finds the `>` that ends a tag.
fn find_tag_end(bytes: &[u8], i: usize) -> (r: Option<usize>)
    ensures
        match r {
            Some(end) => tag_end(bytes@, i as int, 0) == Some(end as int) && i <= end
                < bytes@.len() && bytes@[end as int] == GREATER,
            None => tag_end(bytes@, i as int, 0) is None,
        },
{
    let mut quote: u8 = 0;
    let mut j: usize = i;
    while j < bytes.len()
        invariant
            i <= j,
            tag_end(bytes@, i as int, 0) == tag_end(bytes@, j as int, quote),
        decreases bytes@.len() - j,
    {
        let c: u8 = bytes[j];
        if quote != 0 {
            if c == quote {
                quote = 0;
            }
        } else if c == GREATER {
            return Some(j);
        } else if c == QUOTE || c == APOSTROPHE {
            quote = c;
        }
        j = j + 1;
    }
    None
}

/// What a piece of markup is.
#[derive(Debug, Clone, Copy, PartialEq, Eq, Structural)]
pub enum Markup {
    /// A comment, a section, an instruction or a document type: nothing of it is text.
    Aside,
    /// A start tag.
    Start,
    /// The tag of an empty element.
    Empty,
    /// An end tag.
    End,
    /// No markup.
    Broken,
}

/// How many bytes the reader takes in at a time: what a buffered reader of the standard library
/// has room for.
pub const PIECE: usize = 8192;

/// Where the text behind a comment in a document type begins, with `hyphens` of them, but no more
/// than two, right before `i`. The reader looks for `-->` piece by piece. Where a piece begins
/// behind a hyphen of the comment (`carried` of them, but no more than two) and ends with a single
/// one, it takes this one for two.
pub open spec fn behind_comment(bytes: Seq<u8>, i: int, hyphens: int, carried: int) -> Option<int>
    decreases bytes.len() - i,
{
    let fresh = i % PIECE as int == 0;
    let before = if fresh && hyphens == 1 && carried > 0 {
        2
    } else {
        hyphens
    };
    if i >= bytes.len() {
        None
    } else if bytes[i] == GREATER && before == 2 {
        Some(i + 1)
    } else {
        behind_comment(
            bytes,
            i + 1,
            if bytes[i] != MINUS {
                0
            } else if before < 2 {
                before + 1
            } else {
                2
            },
            if fresh {
                before
            } else {
                carried
            },
        )
    }
}

/// Finds where the text behind a comment in a document type begins.
fn find_behind_comment(bytes: &[u8], i: usize) -> (r: Option<usize>)
    ensures
        match r {
            Some(end) => behind_comment(bytes@, i as int, 0, 0) == Some(end as int) && i < end
                <= bytes@.len(),
            None => behind_comment(bytes@, i as int, 0, 0) is None,
        },
{
    let mut hyphens: u8 = 0;
    let mut carried: u8 = 0;
    let mut j: usize = i;
    while j < bytes.len()
        invariant
            i <= j,
            hyphens <= 2,
            behind_comment(bytes@, i as int, 0, 0) == behind_comment(
                bytes@,
                j as int,
                hyphens as int,
                carried as int,
            ),
        decreases bytes@.len() - j,
    {
        if j % PIECE == 0 {
            if hyphens == 1 && carried > 0 {
                hyphens = 2;
            }
            carried = hyphens;
        }
        if bytes[j] == GREATER && hyphens == 2 {
            return Some(j + 1);
        }
        if bytes[j] != MINUS {
            hyphens = 0;
        } else if hyphens < 2 {
            hyphens = hyphens + 1;
        }
        j = j + 1;
    }
    None
}

/// Where the text behind a document type begins, from behind its keyword on, where `quote` is the
/// quote that is open at `i`, or zero.
pub open spec fn behind_document_type(bytes: Seq<u8>, i: int, quote: u8) -> Option<int>
    decreases bytes.len() - i,
{
    if i >= bytes.len() {
        None
    } else if quote != 0 {
        behind_document_type(
            bytes,
            i + 1,
            if bytes[i] == quote {
                0
            } else {
                quote
            },
        )
    } else if bytes[i] == GREATER {
        Some(i + 1)
    } else if bytes[i] == OPENING_BRACKET {
        behind_declarations(bytes, i + 1)
    } else {
        behind_document_type(
            bytes,
            i + 1,
            if bytes[i] == QUOTE || bytes[i] == APOSTROPHE {
                bytes[i]
            } else {
                0
            },
        )
    }
}

/// Where the markup in a document type ends that begins at `i`; nothing where it has no end. The
/// end of entities, attributes and notations is looked for outside quotes. What is not known ends
/// like an element's declaration, at the first `>`.
pub open spec fn declaration_end(bytes: Seq<u8>, i: int) -> Option<int> {
    if spelled_at(bytes, i, "<?"@) {
        behind(bytes, i + 2, "?>"@)
    } else if spelled_at(bytes, i, "<!--"@) {
        behind_comment(bytes, i + 4, 0, 0)
    } else if spelled_at(bytes, i, "<!ENTITY"@) {
        tag_end(bytes, i + 8, 0)
    } else if spelled_at(bytes, i, "<!ATTLIST"@) {
        tag_end(bytes, i + 9, 0)
    } else if spelled_at(bytes, i, "<!NOTATION"@) {
        tag_end(bytes, i + 10, 0)
    } else {
        behind(bytes, i + 1, ">"@)
    }
}

/// Where the text behind a document type begins, from `i` in its brackets on.
pub open spec fn behind_declarations(bytes: Seq<u8>, i: int) -> Option<int>
    decreases bytes.len() - i,
{
    if i >= bytes.len() {
        None
    } else if bytes[i] == LESS {
        match declaration_end(bytes, i) {
            Some(end) => if i < end <= bytes.len() {
                behind_declarations(bytes, end)
            } else {
                None
            },
            None => None,
        }
    } else if bytes[i] == CLOSING_BRACKET {
        behind(bytes, i + 1, ">"@)
    } else {
        behind_declarations(bytes, i + 1)
    }
}

/// Finds where the markup in a document type ends that begins at `i`.
fn find_declaration_end(bytes: &[u8], i: usize) -> (r: Option<usize>)
    requires
        i < bytes@.len(),
    ensures
        match r {
            Some(end) => declaration_end(bytes@, i as int) == Some(end as int) && i < end
                <= bytes@.len(),
            None => declaration_end(bytes@, i as int) is None,
        },
{
    proof {
        reveal_strlit("<?");
        reveal_strlit("<!--");
        reveal_strlit("<!ENTITY");
        reveal_strlit("<!ATTLIST");
        reveal_strlit("<!NOTATION");
    }
    let len: usize = bytes.len();
    assert(i + 1 <= len);
    if is_spelled_at(bytes, i, "<?") {
        find_behind(bytes, i + 2, "?>")
    } else if is_spelled_at(bytes, i, "<!--") {
        find_behind_comment(bytes, i + 4)
    } else if is_spelled_at(bytes, i, "<!ENTITY") {
        find_tag_end(bytes, i + 8)
    } else if is_spelled_at(bytes, i, "<!ATTLIST") {
        find_tag_end(bytes, i + 9)
    } else if is_spelled_at(bytes, i, "<!NOTATION") {
        find_tag_end(bytes, i + 10)
    } else {
        find_behind(bytes, i + 1, ">")
    }
}

/// Finds where the text behind a document type begins, from behind its keyword on.
fn find_behind_document_type(bytes: &[u8], i: usize) -> (r: Option<usize>)
    ensures
        match r {
            Some(end) => behind_document_type(bytes@, i as int, 0) == Some(end as int) && i < end
                <= bytes@.len(),
            None => behind_document_type(bytes@, i as int, 0) is None,
        },
{
    let mut quote: u8 = 0;
    let mut j: usize = i;
    while j < bytes.len()
        invariant
            i <= j,
            behind_document_type(bytes@, i as int, 0) == behind_document_type(
                bytes@,
                j as int,
                quote,
            ),
        decreases bytes@.len() - j,
    {
        let c: u8 = bytes[j];
        if quote != 0 {
            if c == quote {
                quote = 0;
            }
        } else if c == GREATER {
            return Some(j + 1);
        } else if c == OPENING_BRACKET {
            return find_behind_declarations(bytes, j + 1);
        } else if c == QUOTE || c == APOSTROPHE {
            quote = c;
        }
        j = j + 1;
    }
    None
}

/// Finds where the text behind a document type begins, from `i` in its brackets on.
fn find_behind_declarations(bytes: &[u8], i: usize) -> (r: Option<usize>)
    ensures
        match r {
            Some(end) => behind_declarations(bytes@, i as int) == Some(end as int) && i <= end
                <= bytes@.len(),
            None => behind_declarations(bytes@, i as int) is None,
        },
{
    let mut j: usize = i;
    while j < bytes.len()
        invariant
            i <= j,
            behind_declarations(bytes@, i as int) == behind_declarations(bytes@, j as int),
        decreases bytes@.len() - j,
    {
        if bytes[j] == LESS {
            match find_declaration_end(bytes, j) {
                Some(end) => {
                    j = end;
                },
                None => {
                    return None;
                },
            }
        } else if bytes[j] == CLOSING_BRACKET {
            return find_behind(bytes, j + 1, ">");
        } else {
            j = j + 1;
        }
    }
    None
}

/// Whether a byte parts the words of a tag.
pub open spec fn is_blank(b: u8) -> bool {
    b == 0x20 || b == 0x09 || b == 0x0a || b == 0x0d
}

/// Whether there is anything but blanks between `i` and `limit`.
pub open spec fn has_word(bytes: Seq<u8>, i: int, limit: int) -> bool {
    exists|k: int| i <= k < limit && !is_blank(#[trigger] bytes[k])
}

/// Tells whether a byte parts the words of a tag.
fn parts_words(b: u8) -> (r: bool)
    ensures
        r == is_blank(b),
{
    b == 0x20 || b == 0x09 || b == 0x0a || b == 0x0d
}

/// Tells whether there is anything but blanks between `i` and `limit`.
fn finds_word(bytes: &[u8], i: usize, limit: usize) -> (r: bool)
    requires
        limit <= bytes@.len(),
    ensures
        r == has_word(bytes@, i as int, limit as int),
{
    let mut k: usize = i;
    while k < limit
        invariant
            i <= k,
            limit <= bytes@.len(),
            forall|j: int| i <= j < k && j < limit ==> is_blank(#[trigger] bytes@[j]),
        decreases limit - k,
    {
        if !parts_words(bytes[k]) {
            return true;
        }
        k = k + 1;
    }
    false
}

/// The markup that begins with the `<` at `i`: what it is, and where the text behind it begins.
pub open spec fn markup(bytes: Seq<u8>, i: int) -> (Markup, int) {
    if spelled_at(bytes, i, "<!--"@) {
        match behind(bytes, i + 4, "-->"@) {
            Some(end) => (Markup::Aside, end),
            None => (Markup::Broken, i),
        }
    } else if spelled_at(bytes, i, "<![CDATA["@) {
        match behind(bytes, i + 9, "]]>"@) {
            Some(end) => (Markup::Aside, end),
            None => (Markup::Broken, i),
        }
    } else if spelled_at(bytes, i, "<!"@) && spelled_uncased_at(bytes, i + 2, "doctype"@) {
        match behind_document_type(bytes, i + 9, 0) {
            Some(end) => if has_word(bytes, i + 9, end - 1) {
                (Markup::Aside, end)
            } else {
                (Markup::Broken, i)
            },
            None => (Markup::Broken, i),
        }
    } else if spelled_at(bytes, i, "<!"@) {
        (Markup::Broken, i)
    } else if spelled_at(bytes, i, "<?"@) {
        match behind(bytes, i + 1, "?>"@) {
            Some(end) => if end > i + 3 {
                (Markup::Aside, end)
            } else {
                (Markup::Broken, i)
            },
            None => (Markup::Broken, i),
        }
    } else {
        match tag_end(bytes, i + 1, 0) {
            Some(end) => if bytes[i + 1] == SLASH {
                (Markup::End, end + 1)
            } else if end > i + 1 && bytes[end - 1] == SLASH {
                (Markup::Empty, end + 1)
            } else {
                (Markup::Start, end + 1)
            },
            None => (Markup::Broken, i),
        }
    }
}

/// Reads the markup that begins with the `<` at `i`.
fn read_markup(bytes: &[u8], i: usize) -> (r: (Markup, usize))
    ensures
        r.0 == markup(bytes@, i as int).0,
        r.0 != Markup::Broken ==> r.1 == markup(bytes@, i as int).1 && i < r.1 <= bytes@.len(),
        r.0 == Markup::Start ==> i + 2 <= r.1,
        r.0 == Markup::Empty || r.0 == Markup::End ==> i + 3 <= r.1,
{
    proof {
        reveal_strlit("<!--");
        reveal_strlit("<![CDATA[");
        reveal_strlit("<!");
        reveal_strlit("doctype");
    }
    if i >= bytes.len() {
        return (Markup::Broken, i);
    }
    if is_spelled_at(bytes, i, "<!--") {
        match find_behind(bytes, i + 4, "-->") {
            Some(end) => (Markup::Aside, end),
            None => (Markup::Broken, i),
        }
    } else if is_spelled_at(bytes, i, "<![CDATA[") {
        match find_behind(bytes, i + 9, "]]>") {
            Some(end) => (Markup::Aside, end),
            None => (Markup::Broken, i),
        }
    } else if is_spelled_at(bytes, i, "<!") && is_spelled_uncased_at(bytes, i + 2, "doctype") {
        match find_behind_document_type(bytes, i + 9) {
            Some(end) => if finds_word(bytes, i + 9, end - 1) {
                (Markup::Aside, end)
            } else {
                (Markup::Broken, i)
            },
            None => (Markup::Broken, i),
        }
    } else if is_spelled_at(bytes, i, "<!") {
        (Markup::Broken, i)
    } else if is_spelled_at(bytes, i, "<?") {
        match find_behind(bytes, i + 1, "?>") {
            Some(end) => if end - i > 3 {
                (Markup::Aside, end)
            } else {
                (Markup::Broken, i)
            },
            None => (Markup::Broken, i),
        }
    } else {
        match find_tag_end(bytes, i + 1) {
            Some(end) => if bytes[i + 1] == SLASH {
                (Markup::End, end + 1)
            } else if end > i + 1 && bytes[end - 1] == SLASH {
                (Markup::Empty, end + 1)
            } else {
                (Markup::Start, end + 1)
            },
            None => (Markup::Broken, i),
        }
    }
}

/// Where the word that begins at `i` ends, at `limit` at the latest.
pub open spec fn word_end(bytes: Seq<u8>, i: int, limit: int) -> int
    decreases limit - i,
{
    if i >= limit || is_blank(bytes[i]) {
        i
    } else {
        word_end(bytes, i + 1, limit)
    }
}

/// Where the last word between `i` and `limit` ends.
pub open spec fn trimmed_end(bytes: Seq<u8>, i: int, limit: int) -> int
    decreases limit - i,
{
    if i >= limit || !is_blank(bytes[limit - 1]) {
        limit
    } else {
        trimmed_end(bytes, i, limit - 1)
    }
}

/// The name of the start tag at `i` with its `>` or `/>` at `limit`.
pub open spec fn start_name(bytes: Seq<u8>, i: int, limit: int) -> Seq<u8> {
    bytes.subrange(i + 1, word_end(bytes, i + 1, limit))
}

/// The name of the end tag at `i` before the text at `end`.
pub open spec fn end_name(bytes: Seq<u8>, i: int, end: int) -> Seq<u8> {
    bytes.subrange(i + 2, trimmed_end(bytes, i + 2, end - 1))
}

/// Where a name goes on behind its prefix, looked for from `i` on; nothing where it has none.
pub open spec fn behind_prefix(name: Seq<u8>, i: int) -> Option<int>
    decreases name.len() - i,
{
    if i >= name.len() {
        None
    } else if name[i] == COLON {
        Some(i + 1)
    } else {
        behind_prefix(name, i + 1)
    }
}

/// A name without its prefix.
pub open spec fn local_name(name: Seq<u8>) -> Seq<u8> {
    match behind_prefix(name, 0) {
        Some(start) => name.skip(start),
        None => name,
    }
}

/// Whether a name is this word.
pub open spec fn is_word(name: Seq<u8>, word: Seq<char>) -> bool {
    name.len() == word.len() && spelled_at(name, 0, word)
}

/// What an element of a property list is.
#[derive(Debug, Clone, Copy, PartialEq, Eq, Structural)]
pub enum Element {
    Date,
    Integer,
    Real,
    Data,
    /// A key or a string.
    Text,
    /// The list itself, an array, a dictionary or a boolean.
    Frame,
    Unknown,
}

/// What the element of this name is.
pub open spec fn element(name: Seq<u8>) -> Element {
    if is_word(name, "date"@) {
        Element::Date
    } else if is_word(name, "integer"@) {
        Element::Integer
    } else if is_word(name, "real"@) {
        Element::Real
    } else if is_word(name, "data"@) {
        Element::Data
    } else if is_word(name, "key"@) || is_word(name, "string"@) {
        Element::Text
    } else if is_word(name, "plist"@) || is_word(name, "array"@) || is_word(name, "dict"@)
        || is_word(name, "true"@) || is_word(name, "false"@) {
        Element::Frame
    } else {
        Element::Unknown
    }
}

/// Tells whether a name is this word.
fn is_name(name: &[u8], word: &str) -> (r: bool)
    ensures
        r == is_word(name@, word@),
{
    name.len() == word.unicode_len() && is_spelled_at(name, 0, word)
}

/// Finds the name of the start tag at `i` with its `>` or `/>` at `limit`.
fn read_start_name(bytes: &[u8], i: usize, limit: usize) -> (r: &[u8])
    requires
        i < limit <= bytes@.len(),
    ensures
        r@ == start_name(bytes@, i as int, limit as int),
{
    let mut end: usize = i + 1;
    while end < limit && !parts_words(bytes[end])
        invariant
            i < end <= limit <= bytes@.len(),
            word_end(bytes@, i + 1, limit as int) == word_end(bytes@, end as int, limit as int),
        decreases limit - end,
    {
        end = end + 1;
    }
    slice_subrange(bytes, i + 1, end)
}

/// Finds the name of the end tag at `i` before the text at `end`.
fn read_end_name(bytes: &[u8], i: usize, end: usize) -> (r: &[u8])
    requires
        i + 3 <= end <= bytes@.len(),
    ensures
        r@ == end_name(bytes@, i as int, end as int),
{
    let mut limit: usize = end - 1;
    while limit > i + 2 && parts_words(bytes[limit - 1])
        invariant
            i + 2 <= limit < end <= bytes@.len(),
            trimmed_end(bytes@, i + 2, end - 1) == trimmed_end(bytes@, i + 2, limit as int),
        decreases limit,
    {
        limit = limit - 1;
    }
    slice_subrange(bytes, i + 2, limit)
}

/// Tells whether two names are the same.
fn is_same_name(name: &[u8], other: &[u8]) -> (r: bool)
    ensures
        r == (name@ == other@),
{
    if name.len() != other.len() {
        return false;
    }
    let mut k: usize = 0;
    while k < name.len()
        invariant
            name@.len() == other@.len(),
            forall|j: int| 0 <= j < k ==> name@[j] == other@[j],
        decreases name@.len() - k,
    {
        if name[k] != other[k] {
            return false;
        }
        k = k + 1;
    }
    assert(name@ =~= other@);
    true
}

/// Tells what the element of a name with or without a prefix is.
fn read_element(name: &[u8]) -> (r: Element)
    ensures
        r == element(local_name(name@)),
{
    let len: usize = name.len();
    let mut start: usize = 0;
    while start < len && name[start] != COLON
        invariant
            start <= len,
            len == name@.len(),
            behind_prefix(name@, 0) == behind_prefix(name@, start as int),
        decreases len - start,
    {
        start = start + 1;
    }
    let name: &[u8] = if start < len {
        assert(name@.subrange(start + 1, len as int) =~= name@.skip(start + 1));
        slice_subrange(name, start + 1, len)
    } else {
        name
    };
    if is_name(name, "date") {
        Element::Date
    } else if is_name(name, "integer") {
        Element::Integer
    } else if is_name(name, "real") {
        Element::Real
    } else if is_name(name, "data") {
        Element::Data
    } else if is_name(name, "key") || is_name(name, "string") {
        Element::Text
    } else if is_name(name, "plist") || is_name(name, "array") || is_name(name, "dict") || is_name(
        name,
        "true",
    ) || is_name(name, "false") {
        Element::Frame
    } else {
        Element::Unknown
    }
}

/// What a reference stands for.
#[derive(Debug, Clone, Copy, PartialEq, Eq, Structural)]
pub enum Reference {
    /// The character of this code.
    Character(u32),
    /// An entity that is not known, which stands for nothing.
    Nothing,
    /// No reference.
    Broken,
}

/// The character of a code, which is not zero and is no surrogate.
pub open spec fn character(code: Option<int>) -> Reference {
    match code {
        Some(n) => if 0 < n < 0xd800 || 0xe000 <= n <= 0x10ffff {
            Reference::Character(n as u32)
        } else {
            Reference::Broken
        },
        None => Reference::Broken,
    }
}

/// What the reference with this body, the text between `&` and `;`, stands for.
pub open spec fn reference(body: Seq<u8>) -> Reference {
    if body.len() > 0 && body[0] == HASH {
        if body.len() > 1 && body[1] == LOWER_X {
            character(number(body.skip(2), 16, u32::MAX as int))
        } else {
            character(number(body.skip(1), 10, u32::MAX as int))
        }
    } else if is_word(body, "lt"@) {
        Reference::Character(0x3c)
    } else if is_word(body, "gt"@) {
        Reference::Character(0x3e)
    } else if is_word(body, "amp"@) {
        Reference::Character(0x26)
    } else if is_word(body, "apos"@) {
        Reference::Character(0x27)
    } else if is_word(body, "quot"@) {
        Reference::Character(0x22)
    } else {
        Reference::Nothing
    }
}

/// Where the `;` that ends a reference stands: before any `&` or `<`.
pub open spec fn reference_end(bytes: Seq<u8>, i: int) -> Option<int>
    decreases bytes.len() - i,
{
    if i >= bytes.len() || bytes[i] == AMPERSAND || bytes[i] == LESS {
        None
    } else if bytes[i] == SEMICOLON {
        Some(i)
    } else {
        reference_end(bytes, i + 1)
    }
}

/// The reference that begins with the `&` at `i`: what it stands for, and where the text behind
/// it begins.
pub open spec fn reference_at(bytes: Seq<u8>, i: int) -> (Reference, int) {
    match reference_end(bytes, i + 1) {
        Some(end) => (reference(bytes.subrange(i + 1, end)), end + 1),
        None => (Reference::Broken, i),
    }
}

/// Reads the reference that begins with the `&` at `i`.
fn read_reference(bytes: &[u8], i: usize) -> (r: (Reference, usize))
    requires
        i < bytes@.len(),
    ensures
        r.0 == reference_at(bytes@, i as int).0,
        r.0 != Reference::Broken ==> r.1 == reference_at(bytes@, i as int).1 && i < r.1
            <= bytes@.len(),
{
    let len: usize = bytes.len();
    let mut end: usize = i + 1;
    while end < len && bytes[end] != SEMICOLON
        invariant
            i < end <= len,
            len == bytes@.len(),
            reference_end(bytes@, i + 1) == reference_end(bytes@, end as int),
        decreases len - end,
    {
        if bytes[end] == AMPERSAND || bytes[end] == LESS {
            return (Reference::Broken, i);
        }
        end = end + 1;
    }
    if end >= len {
        return (Reference::Broken, i);
    }
    let body: &[u8] = slice_subrange(bytes, i + 1, end);
    let n: usize = body.len();
    let meaning: Reference = if n > 0 && body[0] == HASH {
        let code: Option<u64> = if n > 1 && body[1] == LOWER_X {
            assert(body@.subrange(2, n as int) =~= body@.skip(2));
            read_number(slice_subrange(body, 2, n), 16, u32::MAX as u64)
        } else {
            assert(body@.subrange(1, n as int) =~= body@.skip(1));
            read_number(slice_subrange(body, 1, n), 10, u32::MAX as u64)
        };
        match code {
            Some(c) => if (0 < c && c < 0xd800) || (0xe000 <= c && c <= 0x10ffff) {
                Reference::Character(c as u32)
            } else {
                Reference::Broken
            },
            None => Reference::Broken,
        }
    } else if is_name(body, "lt") {
        Reference::Character(0x3c)
    } else if is_name(body, "gt") {
        Reference::Character(0x3e)
    } else if is_name(body, "amp") {
        Reference::Character(0x26)
    } else if is_name(body, "apos") {
        Reference::Character(0x27)
    } else if is_name(body, "quot") {
        Reference::Character(0x22)
    } else {
        Reference::Nothing
    };
    (meaning, end + 1)
}

/// What an element holds, from its start tag to its end tag.
pub enum Content {
    /// Text, without what is aside, and where the end tag and the text behind it begin.
    Whole(Seq<u8>, int, int),
    /// Something that no text can hold, or the end of the bytes.
    Broken,
}

/// The bytes that stand for a character. All that take more than one have a stand-in of two that
/// is in no number, data or date either.
pub open spec fn bytes_of(code: u32) -> Seq<u8> {
    if code < 0x80 {
        seq![code as u8]
    } else {
        seq![0xff, 0xff]
    }
}

/// What an element holds from `i` on, where `before` was read already.
pub open spec fn content(bytes: Seq<u8>, i: int, before: Seq<u8>) -> Content
    decreases bytes.len() - i,
{
    if i >= bytes.len() {
        Content::Broken
    } else if bytes[i] == LESS {
        let (kind, end) = markup(bytes, i);
        if kind == Markup::Aside && i < end <= bytes.len() {
            content(bytes, end, before)
        } else if kind == Markup::End {
            Content::Whole(before, i, end)
        } else {
            Content::Broken
        }
    } else if bytes[i] == AMPERSAND {
        let (meaning, end) = reference_at(bytes, i);
        if i < end <= bytes.len() {
            match meaning {
                Reference::Character(code) => content(bytes, end, before + bytes_of(code)),
                Reference::Nothing => content(bytes, end, before),
                Reference::Broken => Content::Broken,
            }
        } else {
            Content::Broken
        }
    } else {
        content(bytes, i + 1, before.push(bytes[i]))
    }
}

/// Reads what an element holds from `i` on: its text, and where the end tag and the text behind
/// it begin.
fn read_content(bytes: &[u8], i: usize) -> (r: Option<(Vec<u8>, usize, usize)>)
    ensures
        match r {
            Some((text, at, end)) => content(bytes@, i as int, Seq::empty()) == Content::Whole(
                text@,
                at as int,
                end as int,
            ) && i <= at && at + 3 <= end <= bytes@.len(),
            None => content(bytes@, i as int, Seq::empty()) == Content::Broken,
        },
{
    let mut text: Vec<u8> = Vec::new();
    let mut j: usize = i;
    while j < bytes.len()
        invariant
            i <= j,
            content(bytes@, i as int, Seq::empty()) == content(bytes@, j as int, text@),
        decreases bytes@.len() - j,
    {
        let b: u8 = bytes[j];
        if b == LESS {
            let (kind, end): (Markup, usize) = read_markup(bytes, j);
            match kind {
                Markup::Aside => {
                    j = end;
                },
                Markup::End => {
                    return Some((text, j, end));
                },
                _ => {
                    return None;
                },
            }
        } else if b == AMPERSAND {
            let (meaning, end): (Reference, usize) = read_reference(bytes, j);
            let ghost before = text@;
            match meaning {
                Reference::Character(code) => {
                    if code < 0x80 {
                        text.push(code as u8);
                    } else {
                        text.push(0xff);
                        text.push(0xff);
                    }
                    assert(text@ =~= before + bytes_of(code));
                    j = end;
                },
                Reference::Nothing => {
                    j = end;
                },
                Reference::Broken => {
                    return None;
                },
            }
        } else {
            text.push(b);
            j = j + 1;
        }
    }
    None
}

/// How many bytes the white space character at `i` takes; none where there is no such character.
pub open spec fn space_at(bytes: Seq<u8>, i: int) -> int {
    let first = bytes[i];
    let second = if i + 1 < bytes.len() {
        bytes[i + 1]
    } else {
        0
    };
    let third = if i + 2 < bytes.len() {
        bytes[i + 2]
    } else {
        0
    };
    if 0x09 <= first <= 0x0d || first == 0x20 {
        1
    } else if first == 0xc2 && (second == 0x85 || second == 0xa0) {
        2
    } else if (first == 0xe1 && second == 0x9a && third == 0x80) || (first == 0xe2 && second == 0x80
        && (0x80 <= third <= 0x8a || third == 0xa8 || third == 0xa9 || third == 0xaf)) || (first
        == 0xe2 && second == 0x81 && third == 0x9f) || (first == 0xe3 && second == 0x80 && third
        == 0x80) {
        3
    } else {
        0
    }
}

/// Tells how many bytes the white space character at `i` takes.
fn space_len(bytes: &[u8], i: usize) -> (r: usize)
    requires
        i < bytes@.len(),
    ensures
        r == space_at(bytes@, i as int),
        i + r <= bytes@.len(),
{
    let left: usize = bytes.len() - i;
    let first: u8 = bytes[i];
    let second: u8 = if left > 1 {
        bytes[i + 1]
    } else {
        0
    };
    let third: u8 = if left > 2 {
        bytes[i + 2]
    } else {
        0
    };
    if (0x09 <= first && first <= 0x0d) || first == 0x20 {
        1
    } else if first == 0xc2 && (second == 0x85 || second == 0xa0) {
        2
    } else if (first == 0xe1 && second == 0x9a && third == 0x80) || (first == 0xe2 && second == 0x80
        && ((0x80 <= third && third <= 0x8a) || third == 0xa8 || third == 0xa9 || third == 0xaf))
        || (first == 0xe2 && second == 0x81 && third == 0x9f) || (first == 0xe3 && second == 0x80
        && third == 0x80) {
        3
    } else {
        0
    }
}

/// What the text of an element is to the reader.
#[derive(Debug, Clone, Copy, PartialEq, Eq, Structural)]
pub enum Verdict {
    /// A value of the element's kind.
    Value,
    /// A date that the reader cannot take.
    FarDate,
    /// No value of the element's kind.
    Fault,
}

/// What a text in an element of this kind is to the reader.
pub open spec fn verdict(what: Element, text: Seq<u8>) -> Verdict {
    let is_value = match what {
        Element::Date => literals::date_text(text) == DateText::Date,
        Element::Integer => literals::is_integer(text),
        Element::Real => literals::is_real(text),
        Element::Data => literals::is_base64(literals::squeezed(text)),
        _ => what == Element::Text,
    };
    if what == Element::Date && literals::date_text(text) == DateText::Far {
        Verdict::FarDate
    } else if is_value {
        Verdict::Value
    } else {
        Verdict::Fault
    }
}

/// Tells what a text in an element of this kind is to the reader.
fn read_verdict(what: Element, text: &[u8]) -> (r: Verdict)
    ensures
        r == verdict(what, text@),
{
    let is_value: bool = match what {
        Element::Date => match literals::read_date(text) {
            DateText::Far => {
                return Verdict::FarDate;
            },
            DateText::Date => true,
            DateText::Fault => false,
        },
        Element::Integer => literals::spells_integer(text),
        Element::Real => literals::spells_real(text),
        Element::Data => literals::spells_data(text),
        Element::Text => true,
        _ => false,
    };
    if is_value {
        Verdict::Value
    } else {
        Verdict::Fault
    }
}

/// Where the name of a tag that ends before `end` ends at the latest.
pub open spec fn name_limit(kind: Markup, end: int) -> int {
    if kind == Markup::Empty {
        end - 2
    } else {
        end - 1
    }
}

/// The text of the value with the tag of this name and kind before `i`, and where the text behind
/// the value begins; nothing where its end tag is missing or another one's.
pub open spec fn value_text(bytes: Seq<u8>, i: int, kind: Markup, name: Seq<u8>) -> Option<
    (Seq<u8>, int),
> {
    if kind == Markup::Empty {
        Some((Seq::empty(), i))
    } else {
        match content(bytes, i, Seq::empty()) {
            Content::Whole(text, at, end) => if end_name(bytes, at, end) == name {
                Some((text, end))
            } else {
                None
            },
            Content::Broken => None,
        }
    }
}

/// Reads the text of the value with the tag of this name and kind before `i`.
fn read_value_text(bytes: &[u8], i: usize, kind: Markup, name: &[u8]) -> (r: Option<
    (Vec<u8>, usize),
>)
    requires
        i <= bytes@.len(),
    ensures
        match r {
            Some((text, end)) => value_text(bytes@, i as int, kind, name@) == Some(
                (text@, end as int),
            ) && i <= end <= bytes@.len(),
            None => value_text(bytes@, i as int, kind, name@) is None,
        },
{
    if kind == Markup::Empty {
        let text: Vec<u8> = Vec::new();
        return Some((text, i));
    }
    match read_content(bytes, i) {
        Some((text, at, end)) => if is_same_name(read_end_name(bytes, at, end), name) {
            Some((text, end))
        } else {
            None
        },
        None => None,
    }
}

/// Where the text begins behind the first date that a reader cannot take, where it comes to one on
/// its way through the elements from `i` on with those of the names in `open` open. It stops at
/// text between the elements, at an end tag that is not that of the last open element, at elements
/// that no property list has, and at values that are not what their elements should hold. Whether
/// the values fit together is not looked at: a list of which they do not cannot be read either way.
pub open spec fn behind_far_date(bytes: Seq<u8>, i: int, open: Seq<Seq<u8>>) -> Option<int>
    decreases bytes.len() - i,
{
    if i >= bytes.len() {
        None
    } else if bytes[i] == LESS {
        let (kind, end) = markup(bytes, i);
        let name = start_name(bytes, i, name_limit(kind, end));
        let what = element(local_name(name));
        if kind == Markup::Broken || !(i < end <= bytes.len()) {
            None
        } else if kind == Markup::Aside {
            behind_far_date(bytes, end, open)
        } else if kind == Markup::End {
            if open.len() > 0 && end_name(bytes, i, end) == open.last() {
                behind_far_date(bytes, end, open.drop_last())
            } else {
                None
            }
        } else if what == Element::Unknown {
            None
        } else if what == Element::Frame {
            behind_far_date(
                bytes,
                end,
                if kind == Markup::Start {
                    open.push(name)
                } else {
                    open
                },
            )
        } else {
            match value_text(bytes, end, kind, name) {
                Some((text, behind)) => match verdict(what, text) {
                    Verdict::FarDate => Some(behind),
                    Verdict::Value => if i < behind <= bytes.len() {
                        behind_far_date(bytes, behind, open)
                    } else {
                        None
                    },
                    Verdict::Fault => None,
                },
                None => None,
            }
        }
    } else if bytes[i] == AMPERSAND {
        let (meaning, end) = reference_at(bytes, i);
        match meaning {
            Reference::Character(code) => if i < end <= bytes.len() && text::space_code(code) {
                behind_far_date(bytes, end, open)
            } else {
                None
            },
            _ => None,
        }
    } else if space_at(bytes, i) > 0 {
        behind_far_date(bytes, i + space_at(bytes, i), open)
    } else {
        None
    }
}

/// Where the text begins, behind a byte order mark.
pub open spec fn text_start(bytes: Seq<u8>) -> int {
    if bytes.len() >= 3 && bytes[0] == 0xef && bytes[1] == 0xbb && bytes[2] == 0xbf {
        3
    } else {
        0
    }
}

/// Whether a reader of property lists that is given `bytes` as XML text comes to a date that it
/// cannot take: one that lies in the year 10000 once its offset is taken off. It does not come to
/// one behind bytes that are not UTF-8.
pub open spec fn comes_to_far_date(bytes: Seq<u8>) -> bool {
    match behind_far_date(bytes, text_start(bytes), Seq::empty()) {
        Some(end) => valid_utf8(bytes.take(end)),
        None => false,
    }
}

/// Tells whether a byte goes on with a character.
fn continues(b: u8) -> (r: bool)
    ensures
        r == is_continuation_byte(b),
{
    0x80 <= b && b <= 0xbf
}

/// Tells whether bytes are UTF-8.
fn is_utf8(bytes: &[u8]) -> (r: bool)
    ensures
        r == valid_utf8(bytes@),
{
    let len: usize = bytes.len();
    let mut i: usize = 0;
    assert(bytes@.skip(0) =~= bytes@);
    while i < len
        invariant
            len == bytes@.len(),
            i <= len,
            valid_utf8(bytes@) == valid_utf8(bytes@.skip(i as int)),
        decreases len - i,
    {
        let ghost rest = bytes@.skip(i as int);
        let left: usize = len - i;
        let first: u8 = bytes[i];
        let (size, code): (usize, u32) = if first <= 0x7f {
            (1, (first & 0x7f) as u32)
        } else if 0xc0 <= first && first <= 0xdf && left >= 2 {
            (2, (((first & 0x1f) as u32) << 6) | ((bytes[i + 1] & 0x3f) as u32))
        } else if 0xe0 <= first && first <= 0xef && left >= 3 {
            (
                3,
                (((first & 0x0f) as u32) << 12) | (((bytes[i + 1] & 0x3f) as u32) << 6) | ((
                bytes[i + 2] & 0x3f) as u32),
            )
        } else if 0xf0 <= first && first <= 0xf7 && left >= 4 {
            (
                4,
                (((first & 0x07) as u32) << 18) | (((bytes[i + 1] & 0x3f) as u32) << 12) | (((
                bytes[i + 2] & 0x3f) as u32) << 6) | ((bytes[i + 3] & 0x3f) as u32),
            )
        } else {
            return false;
        };
        if (size > 1 && !continues(bytes[i + 1])) || (size > 2 && !continues(bytes[i + 2])) || (size
            > 3 && !continues(bytes[i + 3])) {
            return false;
        }
        assert(code == decode_first_codepoint(rest));
        if (size == 2 && code < 0x80) || (size == 3 && code < 0x800) || (size == 4 && (code
            < 0x10000 || code > 0x10ffff)) || (0xd800 <= code && code <= 0xdfff) {
            return false;
        }
        assert(valid_first_scalar(rest));
        assert(pop_first_scalar(rest) =~= bytes@.skip(i + size));
        i = i + size;
    }
    assert(bytes@.skip(len as int).len() == 0);
    true
}

/// Tells whether a reader of property lists that is given `bytes` as XML text comes to a date
/// that it cannot take.
pub fn holds_far_date(bytes: &[u8]) -> (r: bool)
    ensures
        r == comes_to_far_date(bytes@),
{
    let start: usize = if bytes.len() >= 3 && bytes[0] == 0xef && bytes[1] == 0xbb && bytes[2]
        == 0xbf {
        3
    } else {
        0
    };
    match find_behind_far_date(bytes, start) {
        Some(end) => {
            assert(bytes@.subrange(0, end as int) =~= bytes@.take(end as int));
            is_utf8(slice_subrange(bytes, 0, end))
        },
        None => false,
    }
}

/// Finds where the text begins behind the first date that a reader cannot take, where it comes to
/// one from `start` on.
fn find_behind_far_date(bytes: &[u8], start: usize) -> (r: Option<usize>)
    ensures
        match r {
            Some(end) => behind_far_date(bytes@, start as int, Seq::empty()) == Some(end as int)
                && end <= bytes@.len(),
            None => behind_far_date(bytes@, start as int, Seq::empty()) is None,
        },
{
    let mut open: Vec<&[u8]> = Vec::new();
    let mut i: usize = start;
    assert(open@.map_values(|name: &[u8]| name@) =~= Seq::empty());
    while i < bytes.len()
        invariant
            behind_far_date(bytes@, start as int, Seq::empty()) == behind_far_date(
                bytes@,
                i as int,
                open@.map_values(|name: &[u8]| name@),
            ),
        decreases bytes@.len() - i,
    {
        let ghost names = open@.map_values(|name: &[u8]| name@);
        if bytes[i] == LESS {
            let (kind, end): (Markup, usize) = read_markup(bytes, i);
            match kind {
                Markup::Broken => {
                    return None;
                },
                Markup::Aside => {
                    i = end;
                },
                Markup::End => {
                    match open.pop() {
                        Some(name) => {
                            assert(names.last() == name@);
                            if !is_same_name(read_end_name(bytes, i, end), name) {
                                return None;
                            }
                            assert(open@.map_values(|name: &[u8]| name@) =~= names.drop_last());
                        },
                        None => {
                            return None;
                        },
                    }
                    i = end;
                },
                _ => {
                    let limit: usize = if kind == Markup::Empty {
                        end - 2
                    } else {
                        end - 1
                    };
                    let name: &[u8] = read_start_name(bytes, i, limit);
                    let what: Element = read_element(name);
                    if what == Element::Unknown {
                        return None;
                    }
                    if what == Element::Frame {
                        if kind == Markup::Start {
                            open.push(name);
                            assert(open@.map_values(|name: &[u8]| name@) =~= names.push(name@));
                        }
                        i = end;
                    } else {
                        match read_value_text(bytes, end, kind, name) {
                            Some((text, behind)) => match read_verdict(what, text.as_slice()) {
                                Verdict::FarDate => {
                                    return Some(behind);
                                },
                                Verdict::Value => {
                                    i = behind;
                                },
                                Verdict::Fault => {
                                    return None;
                                },
                            },
                            None => {
                                return None;
                            },
                        }
                    }
                },
            }
        } else if bytes[i] == AMPERSAND {
            let (meaning, end): (Reference, usize) = read_reference(bytes, i);
            match meaning {
                Reference::Character(code) => {
                    if !text::is_space_code(code) {
                        return None;
                    }
                    i = end;
                },
                _ => {
                    return None;
                },
            }
        } else {
            let n: usize = space_len(bytes, i);
            if n == 0 {
                return None;
            }
            i = i + n;
        }
    }
    None
}

} // verus!
