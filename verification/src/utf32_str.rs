//! Text in one of two forms, chosen once from its content: packed bytes where
//! every character fits into seven bits, full code points where one does not.
use vstd::prelude::*;
use vstd::std_specs::iter::IteratorSpec;
use vstd::string::StringSliceAdditionalSpecFns;
use crate::chars::codes;

verus! {

broadcast use {
    vstd::string::is_ascii_spec_bytes,
    vstd::string::axiom_spec_iter,
    vstd::string::next_postcondition,
};

/// The code points of a string.
pub open spec fn str_codes(text: Seq<char>) -> Seq<u32> {
    Seq::new(text.len(), |i: int| text[i] as u32)
}

/// A character fits into seven bits exactly where its code point is below 128.
pub proof fn lemma_narrow_char(c: char)
    ensures
        ('\0' <= c <= '\u{7f}') <==> (c as u32) < 128,
{
}

/// Whether every code point fits into seven bits.
pub open spec fn all_narrow(text: Seq<u32>) -> bool {
    forall|i: int| 0 <= i < text.len() ==> #[trigger] text[i] < 128
}

/// The code points of a string all fit into seven bits exactly where its
/// characters do.
pub proof fn lemma_narrow_str(text: Seq<char>)
    ensures
        all_narrow(str_codes(text)) <==> vstd::utf8::is_ascii_chars(text),
{
    if all_narrow(str_codes(text)) {
        assert forall|i: int| 0 <= i < text.len() implies '\0' <= #[trigger] text[i]
            <= '\u{7f}' by {
            lemma_narrow_char(text[i]);
            assert(str_codes(text)[i] < 128);
        }
    }
    if vstd::utf8::is_ascii_chars(text) {
        assert forall|i: int| 0 <= i < text.len() implies #[trigger] str_codes(text)[i]
            < 128 by {
            lemma_narrow_char(text[i]);
        }
    }
}

/// The two forms.
#[derive(Clone, Copy, Debug)]
pub(crate) enum Text<'a> {
    Ascii(&'a [u8]),
    Unicode(&'a [char]),
}

/// A haystack or a needle. It is packed where all of it fits into seven bits,
/// and only there.
#[derive(Clone, Copy, Debug)]
pub struct Utf32Str<'a> {
    pub(crate) text: Text<'a>,
}

impl<'a> Utf32Str<'a> {
    #[verifier::type_invariant]
    pub(crate) closed spec fn packed_where_narrow(self) -> bool {
        match self.text {
            Text::Ascii(bytes) => all_narrow(codes(bytes@)),
            Text::Unicode(chars) => !all_narrow(codes(chars@)),
        }
    }

    /// The code points of the text.
    pub closed spec fn view(&self) -> Seq<u32> {
        match self.text {
            Text::Ascii(bytes) => codes(bytes@),
            Text::Unicode(chars) => codes(chars@),
        }
    }

    /// Whether the text is held in packed form.
    pub closed spec fn packed(&self) -> bool {
        self.text is Ascii
    }

    /// What the two forms say of the text: a packed text is narrow, and a text
    /// held as code points has one that is not.
    pub(crate) proof fn lemma_forms(self)
        requires
            self.packed_where_narrow(),
        ensures
            self@ == match self.text {
                Text::Ascii(bytes) => codes(bytes@),
                Text::Unicode(chars) => codes(chars@),
            },
            self.text is Ascii <==> all_narrow(self@),
    {
    }

    /// The text of `text`. Where a character of it does not fit into seven bits,
    /// its code points are written to `buf`, which the result then borrows.
    pub fn new(text: &'a str, buf: &'a mut Vec<char>) -> (r: Self)
        ensures
            r@ == str_codes(text@),
    {
        if text.is_ascii() {
            let bytes: &'a [u8] = text.as_bytes();
            proof {
                lemma_narrow_str(text@);
                assert(codes(bytes@) =~= str_codes(text@));
            }
            return Utf32Str { text: Text::Ascii(bytes) };
        }
        buf.clear();
        let mut rest = text.chars();
        loop
            invariant
                buf@ + rest.remaining() == text@,
                rest.decrease() is Some,
            ensures
                buf@ == text@,
            decreases rest.decrease()->0,
        {
            let ghost before = rest.remaining();
            match rest.next() {
                Some(c) => {
                    buf.push(c);
                    assert(buf@ + rest.remaining() =~= text@);
                },
                None => {
                    assert(buf@ =~= text@);
                    break ;
                },
            }
        }
        let chars: &'a Vec<char> = buf;
        let wide: &'a [char] = chars.as_slice();
        proof {
            lemma_narrow_str(text@);
            assert(codes(wide@) =~= str_codes(text@));
        }
        Utf32Str { text: Text::Unicode(wide) }
    }

    /// The number of characters.
    pub fn len(&self) -> (n: usize)
        ensures
            n == self@.len(),
    {
        match self.text {
            Text::Ascii(bytes) => bytes.len(),
            Text::Unicode(chars) => chars.len(),
        }
    }

    /// Whether the text has no character.
    pub fn is_empty(&self) -> (r: bool)
        ensures
            r == (self@.len() == 0),
    {
        self.len() == 0
    }

    /// Whether the text is held in packed form, that is, whether each of its
    /// characters fits into seven bits.
    pub fn is_ascii(&self) -> (r: bool)
        ensures
            r == self.packed(),
            r == all_narrow(self@),
    {
        proof {
            use_type_invariant(self);
        }
        match self.text {
            Text::Ascii(_) => true,
            Text::Unicode(_) => false,
        }
    }

    /// The code point of character `i`.
    pub fn get(&self, i: usize) -> (c: u32)
        requires
            i < self@.len(),
        ensures
            c == self@[i as int],
    {
        match self.text {
            Text::Ascii(bytes) => bytes[i] as u32,
            Text::Unicode(chars) => chars[i] as u32,
        }
    }
}

} // verus!
