//! The latest error message, and how texts are handed out as C strings.
use vstd::prelude::*;

verus! {

/// What becomes of an output variable for a C string: nothing, a null pointer,
/// or a string with these bytes.
pub enum OutText {
    Untouched,
    Null,
    Text(Vec<u8>),
}

/// The contents of an `OutText`.
pub enum OutView {
    Untouched,
    Null,
    Text(Seq<u8>),
}

impl View for OutText {
    type V = OutView;

    open spec fn view(&self) -> OutView {
        match self {
            OutText::Untouched => OutView::Untouched,
            OutText::Null => OutView::Null,
            OutText::Text(bytes) => OutView::Text(bytes@),
        }
    }
}

/// The text as a C string, or `otherwise` where it holds the character NUL, which
/// a C string cannot hold.
pub open spec fn c_text(text: Seq<char>, otherwise: OutView) -> OutView {
    if text.contains('\0') {
        otherwise
    } else {
        OutView::Text(vstd::utf8::encode_utf8(text))
    }
}

/// The latest error message; it is empty as long as there was no error.
pub struct ErrorMessage {
    text: String,
}

impl View for ErrorMessage {
    type V = Seq<char>;

    closed spec fn view(&self) -> Seq<char> {
        self.text@
    }
}

impl ErrorMessage {
    /// No message.
    pub fn new() -> (r: ErrorMessage)
        ensures
            r@ == Seq::<char>::empty(),
    {
        ErrorMessage { text: String::new() }
    }

    /// The message.
    pub fn text(&self) -> (r: &str)
        ensures
            r@ == self@,
    {
        self.text.as_str()
    }
}

/// Replaces the latest error message by `msg`.
pub fn set_error_msg(error: &mut ErrorMessage, msg: &str)
    ensures
        final(error)@ == msg@,
{
    error.text = msg.to_owned();
}

/// The bytes of `text` where none of them is zero.
fn c_bytes(text: &str) -> (r: Option<Vec<u8>>)
    ensures
        match r {
            Some(bytes) => !text@.contains('\0') && bytes@ == vstd::utf8::encode_utf8(text@),
            None => text@.contains('\0'),
        },
{
    let bytes = text.as_bytes();
    let len: usize = bytes.len();
    let mut copy: Vec<u8> = Vec::new();
    let mut i: usize = 0;
    while i < len
        invariant
            i <= len,
            len == bytes@.len(),
            bytes@ == vstd::utf8::encode_utf8(text@),
            copy@ == bytes@.take(i as int),
            !copy@.contains(0),
        decreases len - i,
    {
        let b: u8 = bytes[i];
        if b == 0 {
            proof {
                assert(bytes@.contains(0)) by {
                    assert(bytes@[i as int] == 0);
                }
                lemma_nul(text@);
            }
            return None;
        }
        assert forall|j: int| 0 <= j < i + 1 implies copy@.push(b)[j] != 0 by {
            if j < i {
                assert(copy@.contains(copy@[j]));
            }
        }
        copy.push(b);
        i += 1;
    }
    assert(copy@ =~= bytes@);
    proof {
        lemma_nul(text@);
    }
    Some(copy)
}

/// The text as a C string, or `otherwise` where it cannot be one.
pub fn out_text(text: &str, otherwise: OutText) -> (r: OutText)
    ensures
        r@ == c_text(text@, otherwise@),
{
    match c_bytes(text) {
        Some(bytes) => OutText::Text(bytes),
        None => otherwise,
    }
}

/// Reports `msg` through the output variable of a call, if the caller gave one.
pub fn set_err_msg_ptr(given: bool, msg: &str) -> (r: OutText)
    ensures
        r@ == if given {
            c_text(msg@, OutView::Untouched)
        } else {
            OutView::Untouched
        },
{
    if !given {
        return OutText::Untouched;
    }
    out_text(msg, OutText::Untouched)
}

/// Answers a request for the latest error message: the status, and what becomes
/// of the output variable, which the caller may have failed to give.
pub fn get_latest_error_msg(error: &ErrorMessage, given: bool) -> (r: (i32, OutText))
    ensures
        !given ==> r.0 == -1 && r.1@ == OutView::Untouched,
        given ==> r.0 == 0 && r.1@ == latest_error(error@),
{
    if !given {
        return (-1, OutText::Untouched);
    }
    if error.text.as_str().is_empty() {
        return (0, OutText::Null);
    }
    (0, out_text(error.text.as_str(), OutText::Null))
}

/// The latest error message for a caller that asks for it: null where there is
/// none, and where it cannot be a C string.
pub open spec fn latest_error(text: Seq<char>) -> OutView {
    if text.len() == 0 {
        OutView::Null
    } else {
        c_text(text, OutView::Null)
    }
}

/// Answers the older request for the latest error message: null where there is
/// none, and no change where it cannot be a C string.
pub fn get_error_msg(error: &ErrorMessage) -> (r: OutText)
    ensures
        r@ == if error@.len() == 0 {
            OutView::Null
        } else {
            c_text(error@, OutView::Untouched)
        },
{
    if error.text.as_str().is_empty() {
        return OutText::Null;
    }
    out_text(error.text.as_str(), OutText::Untouched)
}

/// A message that is set comes back: its bytes decode to the message, provided
/// that there is one and that it can be a C string.
pub proof fn law_latest_error_is_what_was_set(msg: Seq<char>)
    requires
        msg.len() > 0,
        !msg.contains('\0'),
    ensures
        latest_error(msg) matches OutView::Text(bytes) && {
            &&& vstd::utf8::valid_utf8(bytes)
            &&& vstd::utf8::decode_utf8(bytes) == msg
        },
{
    broadcast use vstd::utf8::encode_utf8_valid_utf8, vstd::utf8::encode_utf8_decode_utf8;

}

/// What is handed out as a C string holds no zero byte, so that nothing of it is
/// cut off.
pub proof fn law_c_text_is_whole(text: Seq<char>, otherwise: OutView)
    requires
        !(otherwise is Text),
    ensures
        c_text(text, otherwise) matches OutView::Text(bytes) ==> !bytes.contains(0),
{
    lemma_nul(text);
}

/// A text in UTF-8 has a zero byte exactly if it has the character NUL.
proof fn lemma_nul(text: Seq<char>)
    ensures
        vstd::utf8::encode_utf8(text).contains(0) <==> text.contains('\0'),
    decreases text.len(),
{
    if text.len() > 0 {
        let first = vstd::utf8::encode_scalar(text[0] as u32);
        let rest = vstd::utf8::encode_utf8(text.drop_first());
        lemma_nul(text.drop_first());
        lemma_nul_scalar(text[0]);
        lemma_contains_add(first, rest);
        assert(text =~= seq![text[0]] + text.drop_first());
        if text.contains('\0') && text[0] != '\0' {
            let i = choose|i: int| 0 <= i < text.len() && text[i] == '\0';
            assert(text.drop_first()[i - 1] == '\0');
        }
        if text.drop_first().contains('\0') {
            let i = choose|i: int| 0 <= i < text.drop_first().len() && text.drop_first()[i] == '\0';
            assert(text[i + 1] == '\0');
        }
    }
}

proof fn lemma_contains_add(a: Seq<u8>, b: Seq<u8>)
    ensures
        (a + b).contains(0) <==> a.contains(0) || b.contains(0),
{
    let s = a + b;
    if a.contains(0) {
        let i = choose|i: int| 0 <= i < a.len() && a[i] == 0;
        assert(s[i] == 0);
    }
    if b.contains(0) {
        let i = choose|i: int| 0 <= i < b.len() && b[i] == 0;
        assert(s[a.len() + i] == 0);
    }
    if s.contains(0) {
        let i = choose|i: int| 0 <= i < s.len() && s[i] == 0;
        if i < a.len() {
            assert(a[i] == 0);
        } else {
            assert(b[i - a.len()] == 0);
        }
    }
}

proof fn lemma_nul_scalar(c: char)
    ensures
        vstd::utf8::encode_scalar(c as u32).contains(0) <==> c == '\0',
{
    let n = c as u32;
    let bytes = vstd::utf8::encode_scalar(n);
    assert(n <= 0x7f ==> ((n & 0x7f) as u8 == 0 <==> n == 0)) by (bit_vector);
    assert(0xc0u8 | ((n >> 6) & 0x1f) as u8 != 0) by (bit_vector);
    assert(0xe0u8 | ((n >> 12) & 0x0f) as u8 != 0) by (bit_vector);
    assert(0xf0u8 | ((n >> 18) & 0x7) as u8 != 0) by (bit_vector);
    assert(0x80u8 | (n & 0x3f) as u8 != 0) by (bit_vector);
    assert(0x80u8 | ((n >> 6) & 0x3f) as u8 != 0) by (bit_vector);
    assert(0x80u8 | ((n >> 12) & 0x3f) as u8 != 0) by (bit_vector);
    if c == '\0' {
        assert(bytes[0] == 0);
    }
}

/// A text is handed out whole, byte for byte, exactly if it does not hold the
/// character NUL: what is handed out decodes to the text.
pub proof fn law_c_text_is_the_text(text: Seq<char>, otherwise: OutView)
    ensures
        text.contains('\0') ==> c_text(text, otherwise) == otherwise,
        !text.contains('\0') ==> {
            &&& c_text(text, otherwise) matches OutView::Text(bytes)
            &&& bytes == vstd::utf8::encode_utf8(text)
            &&& vstd::utf8::valid_utf8(bytes)
            &&& vstd::utf8::decode_utf8(bytes) == text
        },
{
    broadcast use vstd::utf8::encode_utf8_valid_utf8, vstd::utf8::encode_utf8_decode_utf8;

}

/// Null is the answer exactly where there is no message, or one that cannot be a C
/// string; the variable never stays as it was.
pub proof fn law_latest_error_is_null_without_message(msg: Seq<char>)
    ensures
        latest_error(msg) is Null <==> msg.len() == 0 || msg.contains('\0'),
        !(latest_error(msg) is Untouched),
{
}

/// What becomes of an output variable is what is said of it.
pub proof fn law_out_text_by_kind(out: OutText)
    ensures
        out is Untouched <==> out@ is Untouched,
        out is Null <==> out@ is Null,
        out matches OutText::Text(bytes) ==> out@ == OutView::Text(bytes@),
{
}

} // verus!
