use crate::parser::lossless::lemma_byte_offset_boundary;
use crate::text::{
    byte_len, byte_offset, char_len_utf8, char_width, lemma_byte_len_concat, lemma_byte_len_encode,
    lemma_byte_offset_full, lemma_byte_offset_mono, lemma_byte_offset_step, lemma_encode_between,
    str_between, str_chars,
};
use std::rc::Rc;
use vstd::prelude::*;
use vstd::std_specs::cmp::PartialEqSpecImpl;
use vstd::std_specs::convert::FromSpecImpl;
use vstd::std_specs::ops::AddSpecImpl;
use vstd::string::{is_ascii_spec_bytes, StringExecFns, StringSliceAdditionalSpecFns, StrSliceExecFns};
use vstd::utf8::*;

verus! {

/// The byte offsets of the chars of `s`, then the byte length of `s`.
pub open spec fn char_offsets(s: Seq<char>) -> Seq<usize> {
    Seq::new(s.len() + 1, |k: int| byte_offset(s, k) as usize)
}

#[derive(Debug)]
enum Repr {
    Ascii(String),
    NonAscii(String, Vec<usize>),
}

/// A string that can be read by char position: an ASCII string directly, another one through
/// the byte offsets of its chars.
#[derive(Debug)]
pub struct UnicodeBasedString(Repr);

impl View for UnicodeBasedString {
    type V = Seq<char>;

    closed spec fn view(&self) -> Seq<char> {
        match self.0 {
            Repr::Ascii(s) => s@,
            Repr::NonAscii(s, _) => s@,
        }
    }
}

/// Byte offsets of the chars of `s` from `start` on, each moved by `base`.
fn push_char_offsets(pos: &mut Vec<usize>, s: &str, base: usize, total: usize)
    requires
        base + byte_len(s@) == total,
    ensures
        final(pos)@ == old(pos)@ + Seq::new(s@.len(), |k: int| (base + byte_offset(s@, k)) as usize),
{
    let chars = str_chars(s);
    let mut off: usize = base;
    let mut k: usize = 0;
    let ghost start = pos@;
    proof {
        assert(s@.take(0) =~= Seq::<char>::empty());
        lemma_byte_offset_full(s@);
    }
    while k < chars.len()
        invariant
            k <= chars@.len(),
            chars@ == s@,
            base + byte_len(s@) == total,
            off == base + byte_offset(s@, k as int),
            pos@ == start + Seq::new(k as nat, |i: int| (base + byte_offset(s@, i)) as usize),
        decreases chars@.len() - k,
    {
        proof {
            lemma_byte_offset_step(s@, k as int);
            lemma_byte_offset_mono(s@, k + 1, s@.len() as int);
            lemma_byte_offset_full(s@);
        }
        pos.push(off);
        proof {
            assert(pos@ =~= start + Seq::new((k + 1) as nat, |i: int| (base + byte_offset(s@, i)) as usize));
        }
        off = off + char_len_utf8(chars[k]) as usize;
        k = k + 1;
    }
}

/// In an ASCII string every char takes one byte: the offset of char `k` is `k`.
proof fn lemma_ascii_offsets(s: Seq<char>, k: int)
    requires
        is_ascii_chars(s),
        0 <= k <= s.len(),
    ensures
        byte_offset(s, k) == k,
    decreases k,
{
    if k == 0 {
        assert(s.take(0) =~= Seq::<char>::empty());
    } else {
        lemma_ascii_offsets(s, k - 1);
        lemma_byte_offset_step(s, k - 1);
        assert('\0' <= s[k - 1] <= '\u{7f}');
    }
}

impl UnicodeBasedString {
    #[verifier::type_invariant]
    closed spec fn inv(&self) -> bool {
        match self.0 {
            Repr::Ascii(s) => is_ascii_chars(s@),
            Repr::NonAscii(s, pos) => {
                &&& !is_ascii_chars(s@)
                &&& byte_len(s@) <= usize::MAX
                &&& pos@ == char_offsets(s@)
            },
        }
    }

    /// The string of the chars of `value`.
    pub fn from_str_slice(value: &str) -> (r: Self)
        ensures
            r@ == value@,
    {
        let string = String::from_str(value);
        if value.is_ascii() {
            UnicodeBasedString(Repr::Ascii(string))
        } else {
            let total = value.as_bytes().len();
            proof {
                lemma_byte_len_encode(value@);
            }
            let mut pos: Vec<usize> = Vec::new();
            push_char_offsets(&mut pos, value, 0, total);
            pos.push(total);
            proof {
                lemma_byte_offset_full(value@);
                assert(pos@ =~= char_offsets(value@));
            }
            UnicodeBasedString(Repr::NonAscii(string, pos))
        }
    }

    /// Number of chars.
    pub fn len(&self) -> (r: usize)
        ensures
            r == self@.len(),
    {
        proof {
            use_type_invariant(self);
        }
        match &self.0 {
            Repr::Ascii(s) => {
                proof {
                    is_ascii_chars_encode_utf8(s@);
                }
                s.as_str().as_bytes().len()
            },
            Repr::NonAscii(_, pos) => pos.len() - 1,
        }
    }

    pub fn is_empty(&self) -> (r: bool)
        ensures
            r == (self@.len() == 0),
    {
        self.len() == 0
    }

    /// Whether every char is ASCII.
    pub fn is_ascii(&self) -> (r: bool)
        ensures
            r == is_ascii_chars(self@),
    {
        proof {
            use_type_invariant(self);
        }
        match &self.0 {
            Repr::Ascii(_) => true,
            Repr::NonAscii(_, _) => false,
        }
    }

    pub fn as_str(&self) -> (r: &str)
        ensures
            r@ == self@,
    {
        match &self.0 {
            Repr::Ascii(s) => s.as_str(),
            Repr::NonAscii(s, _) => s.as_str(),
        }
    }

    /// The char at position `index`, if there is one.
    pub fn get(&self, index: usize) -> (r: Option<char>)
        ensures
            r == (if index < self@.len() {
                Some(self@[index as int])
            } else {
                None
            }),
    {
        proof {
            use_type_invariant(self);
        }
        match &self.0 {
            Repr::Ascii(s) => {
                let bytes = s.as_str().as_bytes();
                proof {
                    is_ascii_chars_encode_utf8(s@);
                }
                if index < bytes.len() {
                    let b = bytes[index];
                    proof {
                        let c = s@[index as int];
                        assert(c as u8 == b);
                        assert('\0' <= c <= '\u{7f}');
                        assert((b as char) == c) by {
                            char_u32_cast(c, c as u32);
                        }
                    }
                    Some(b as char)
                } else {
                    None
                }
            },
            Repr::NonAscii(s, pos) => {
                if index >= pos.len() - 1 {
                    return None;
                }
                let start = pos[index];
                let end = pos[index + 1];
                let text = s.as_str();
                proof {
                    lemma_byte_offset_boundary(s@, index as int);
                    lemma_byte_offset_boundary(s@, index + 1);
                    lemma_byte_offset_mono(s@, index as int, index + 1);
                    lemma_byte_offset_mono(s@, index + 1, s@.len() as int);
                    lemma_byte_offset_full(s@);
                }
                let sub = str_between(text, start, end);
                proof {
                    lemma_encode_between(s@, index as int, index + 1);
                    encode_utf8_decode_utf8(sub@);
                    assert(sub@ == s@.subrange(index as int, index + 1));
                }
                Some(sub.get_char(0))
            },
        }
    }

    /// The chars from position `start` up to `end`, if `start <= end <= len`.
    pub fn sub_string(&self, start: usize, end: usize) -> (r: Option<Self>)
        ensures
            r is Some <==> start <= end <= self@.len(),
            r is Some ==> r->0@ == self@.subrange(start as int, end as int),
    {
        proof {
            use_type_invariant(self);
        }
        match &self.0 {
            Repr::Ascii(s) => {
                let len = self.len();
                if start <= end && end <= len {
                    proof {
                        lemma_ascii_offsets(s@, start as int);
                        lemma_ascii_offsets(s@, end as int);
                        lemma_byte_offset_boundary(s@, start as int);
                        lemma_byte_offset_boundary(s@, end as int);
                    }
                    let sub = str_between(s.as_str(), start, end);
                    proof {
                        lemma_encode_between(s@, start as int, end as int);
                        encode_utf8_decode_utf8(sub@);
                        assert(is_ascii_chars(sub@));
                    }
                    Some(UnicodeBasedString(Repr::Ascii(String::from_str(sub))))
                } else {
                    None
                }
            },
            Repr::NonAscii(s, pos) => {
                if start >= pos.len() || end >= pos.len() || start > end {
                    return None;
                }
                let a = pos[start];
                let b = pos[end];
                proof {
                    lemma_byte_offset_boundary(s@, start as int);
                    lemma_byte_offset_boundary(s@, end as int);
                    lemma_byte_offset_mono(s@, start as int, end as int);
                    lemma_byte_offset_mono(s@, end as int, s@.len() as int);
                    lemma_byte_offset_full(s@);
                }
                let sub = str_between(s.as_str(), a, b);
                proof {
                    lemma_encode_between(s@, start as int, end as int);
                    encode_utf8_decode_utf8(sub@);
                }
                Some(UnicodeBasedString::from_str_slice(sub))
            },
        }
    }

    /// Appends the chars of `string`.
    pub fn push_str(&mut self, string: &str)
        ensures
            final(self)@ == old(self)@ + string@,
    {
        proof {
            use_type_invariant(&*self);
        }
        let mut repr = Repr::Ascii(String::new());
        std::mem::swap(&mut repr, &mut self.0);
        let new_repr = match repr {
            Repr::Ascii(mut s) => {
                let ghost before = s@;
                s.append(string);
                if string.is_ascii() {
                    proof {
                        is_ascii_chars_concat(s@, before, string@);
                    }
                    Repr::Ascii(s)
                } else {
                    proof {
                        is_ascii_chars_concat(s@, before, string@);
                    }
                    let total = s.as_str().as_bytes().len();
                    proof {
                        lemma_byte_len_encode(s@);
                    }
                    let mut pos: Vec<usize> = Vec::new();
                    push_char_offsets(&mut pos, s.as_str(), 0, total);
                    pos.push(total);
                    proof {
                        lemma_byte_offset_full(s@);
                        assert(pos@ =~= char_offsets(s@));
                    }
                    Repr::NonAscii(s, pos)
                }
            },
            Repr::NonAscii(mut s, mut pos) => {
                let ghost before = s@;
                s.append(string);
                proof {
                    is_ascii_chars_concat(s@, before, string@);
                }
                let total = s.as_str().as_bytes().len();
                let last = match pos.pop() {
                    Some(last) => last,
                    None => 0,
                };
                proof {
                    lemma_byte_len_encode(s@);
                    lemma_byte_len_concat(before, string@);
                    lemma_byte_offset_full(before);
                    assert(last == byte_len(before));
                }
                push_char_offsets(&mut pos, string, last, total);
                pos.push(total);
                proof {
                    lemma_byte_offset_full(s@);
                    assert forall|k: int| 0 <= k <= s@.len() implies #[trigger] pos@[k] == byte_offset(s@, k) as usize by {
                        if k < before.len() {
                            assert(s@.take(k) =~= before.take(k));
                        } else if k < s@.len() {
                            let t = k - before.len();
                            assert(s@.take(k) =~= before + string@.take(t));
                            lemma_byte_len_concat(before, string@.take(t));
                            assert(before.take(before.len() as int) =~= before);
                        }
                    }
                    assert(pos@ =~= char_offsets(s@));
                }
                Repr::NonAscii(s, pos)
            },
        };
        self.0 = new_repr;
    }
}


impl UnicodeBasedString {
    /// Whether the two strings hold the same chars.
    pub fn same_text(&self, other: &Self) -> (r: bool)
        ensures
            r == (self@ == other@),
    {
        proof {
            use_type_invariant(self);
            use_type_invariant(other);
        }
        match (&self.0, &other.0) {
            (Repr::Ascii(s), Repr::Ascii(t)) => *s == *t,
            (Repr::NonAscii(s, _), Repr::NonAscii(t, _)) => *s == *t,
            (Repr::Ascii(_), Repr::NonAscii(_, _)) => false,
            (Repr::NonAscii(_, _), Repr::Ascii(_)) => false,
        }
    }

    /// A copy that holds the same chars.
    pub fn duplicate(&self) -> (r: Self)
        ensures
            r@ == self@,
    {
        UnicodeBasedString::from_str_slice(self.as_str())
    }
}

#[derive(Debug)]
enum Variant {
    Empty,
    Occupied(Rc<UnicodeBasedString>),
}

/// A string of the language: empty, or shared text that can be read by char position.
#[derive(Debug)]
pub struct UString(Variant);

impl View for UString {
    type V = Seq<char>;

    closed spec fn view(&self) -> Seq<char> {
        match self.0 {
            Variant::Empty => Seq::empty(),
            Variant::Occupied(x) => x@,
        }
    }
}

impl UString {
    #[verifier::type_invariant]
    closed spec fn inv(&self) -> bool {
        match self.0 {
            Variant::Empty => true,
            Variant::Occupied(x) => x@.len() > 0,
        }
    }

    /// The empty string.
    pub fn new() -> (r: Self)
        ensures
            r@ == Seq::<char>::empty(),
    {
        UString(Variant::Empty)
    }

    fn of(s: UnicodeBasedString) -> (r: Self)
        ensures
            r@ == s@,
    {
        if s.is_empty() {
            UString(Variant::Empty)
        } else {
            UString(Variant::Occupied(Rc::new(s)))
        }
    }

    /// The string of the chars of `value`.
    pub fn from_text(value: &str) -> (r: Self)
        ensures
            r@ == value@,
    {
        if value.is_empty() {
            UString(Variant::Empty)
        } else {
            UString(Variant::Occupied(Rc::new(UnicodeBasedString::from_str_slice(value))))
        }
    }

    /// Number of chars.
    pub fn len(&self) -> (r: usize)
        ensures
            r == self@.len(),
    {
        match &self.0 {
            Variant::Empty => 0,
            Variant::Occupied(x) => x.len(),
        }
    }

    pub fn is_empty(&self) -> (r: bool)
        ensures
            r == (self@.len() == 0),
    {
        proof {
            use_type_invariant(self);
        }
        match &self.0 {
            Variant::Empty => true,
            Variant::Occupied(_) => false,
        }
    }

    /// Whether every char is ASCII.
    pub fn is_ascii(&self) -> (r: bool)
        ensures
            r == is_ascii_chars(self@),
    {
        match &self.0 {
            Variant::Empty => true,
            Variant::Occupied(x) => x.is_ascii(),
        }
    }

    pub fn as_str(&self) -> (r: &str)
        ensures
            r@ == self@,
    {
        match &self.0 {
            Variant::Empty => {
                proof {
                    reveal_strlit("");
                }
                ""
            },
            Variant::Occupied(x) => x.as_str(),
        }
    }

    /// The char at position `index`, if there is one.
    pub fn get(&self, index: usize) -> (r: Option<char>)
        ensures
            r == (if index < self@.len() {
                Some(self@[index as int])
            } else {
                None
            }),
    {
        match &self.0 {
            Variant::Empty => None,
            Variant::Occupied(x) => x.get(index),
        }
    }

    /// The chars from position `start` up to `end`: none for the empty string, and for another
    /// string, if `start <= end <= len`.
    pub fn sub_string(&self, start: usize, end: usize) -> (r: Option<Self>)
        ensures
            self@.len() == 0 ==> r is None,
            self@.len() > 0 ==> (r is Some <==> start <= end <= self@.len()),
            r is Some ==> r->0@ == self@.subrange(start as int, end as int),
    {
        proof {
            use_type_invariant(self);
        }
        match &self.0 {
            Variant::Empty => None,
            Variant::Occupied(x) => match x.sub_string(start, end) {
                Some(sub) => Some(UString::of(sub)),
                None => None,
            },
        }
    }

    /// Appends the chars of `rhs`.
    pub fn push_str(&mut self, rhs: &str)
        ensures
            final(self)@ == old(self)@ + rhs@,
    {
        if rhs.is_empty() {
            assert(old(self)@ + rhs@ =~= old(self)@);
            return;
        }
        let mut v = Variant::Empty;
        std::mem::swap(&mut v, &mut self.0);
        match v {
            Variant::Empty => {
                self.0 = UString::from_text(rhs).0;
                assert(Seq::<char>::empty() + rhs@ =~= rhs@);
            },
            Variant::Occupied(x) => {
                let mut inner = x.duplicate();
                inner.push_str(rhs);
                self.0 = Variant::Occupied(Rc::new(inner));
            },
        }
    }

    /// Appends the chars of `rhs`.
    pub fn push_ustring(&mut self, rhs: UString)
        ensures
            final(self)@ == old(self)@ + rhs@,
    {
        let text = rhs.as_str();
        self.push_str(text);
    }

    /// Whether the two strings hold the same chars.
    pub fn same_text(&self, other: &Self) -> (r: bool)
        ensures
            r == (self@ == other@),
    {
        proof {
            use_type_invariant(self);
            use_type_invariant(other);
        }
        match (&self.0, &other.0) {
            (Variant::Empty, Variant::Empty) => true,
            (Variant::Occupied(l), Variant::Occupied(r)) => l.same_text(r),
            _ => false,
        }
    }

    /// Whether the string holds the chars of `text`.
    pub fn same_as_str(&self, text: &str) -> (r: bool)
        ensures
            r == (self@ == text@),
    {
        let a = String::from_str(self.as_str());
        let b = String::from_str(text);
        a == b
    }
}

impl Clone for UString {
    fn clone(&self) -> (r: Self)
        ensures
            r@ == self@,
    {
        proof {
            use_type_invariant(self);
        }
        match &self.0 {
            Variant::Empty => UString(Variant::Empty),
            Variant::Occupied(x) => UString(Variant::Occupied(Rc::new(x.duplicate()))),
        }
    }
}

impl Default for UString {
    fn default() -> (r: Self)
        ensures
            r@ == Seq::<char>::empty(),
    {
        UString::new()
    }
}

impl PartialEq for UString {
    fn eq(&self, other: &Self) -> (r: bool) {
        self.same_text(other)
    }
}

impl PartialEqSpecImpl for UString {
    open spec fn obeys_eq_spec() -> bool {
        true
    }

    open spec fn eq_spec(&self, other: &Self) -> bool {
        self@ == other@
    }
}

impl<'a> PartialEq<&'a str> for UString {
    fn eq(&self, other: &&'a str) -> (r: bool) {
        self.same_as_str(*other)
    }
}

impl<'a> PartialEqSpecImpl<&'a str> for UString {
    open spec fn obeys_eq_spec() -> bool {
        true
    }

    open spec fn eq_spec(&self, other: &&'a str) -> bool {
        self@ == (*other)@
    }
}

impl<'a> PartialEq<UString> for &'a str {
    fn eq(&self, other: &UString) -> (r: bool) {
        other.same_as_str(*self)
    }
}

impl<'a> PartialEqSpecImpl<UString> for &'a str {
    open spec fn obeys_eq_spec() -> bool {
        true
    }

    open spec fn eq_spec(&self, other: &UString) -> bool {
        (*self)@ == other@
    }
}

impl<'a> From<&'a str> for UString {
    fn from(value: &'a str) -> (r: Self)
        ensures
            r@ == value@,
    {
        UString::from_text(value)
    }
}

impl<'a> FromSpecImpl<&'a str> for UString {
    open spec fn obeys_from_spec() -> bool {
        false
    }

    open spec fn from_spec(v: &'a str) -> Self {
        arbitrary()
    }
}

impl core::ops::Add for UString {
    type Output = UString;

    fn add(self, rhs: UString) -> (r: UString)
        ensures
            r@ == self@ + rhs@,
    {
        let mut s = self;
        s.push_ustring(rhs);
        s
    }
}

impl AddSpecImpl for UString {
    open spec fn obeys_add_spec() -> bool {
        false
    }

    open spec fn add_req(self, rhs: UString) -> bool {
        true
    }

    open spec fn add_spec(self, rhs: UString) -> UString {
        arbitrary()
    }
}

impl<'a> core::ops::Add<&'a str> for UString {
    type Output = UString;

    fn add(self, rhs: &'a str) -> (r: UString)
        ensures
            r@ == self@ + rhs@,
    {
        let mut s = self;
        s.push_str(rhs);
        s
    }
}

impl<'a> AddSpecImpl<&'a str> for UString {
    open spec fn obeys_add_spec() -> bool {
        false
    }

    open spec fn add_req(self, rhs: &'a str) -> bool {
        true
    }

    open spec fn add_spec(self, rhs: &'a str) -> UString {
        arbitrary()
    }
}

impl<'a> core::ops::Add<UString> for &'a str {
    type Output = UString;

    fn add(self, rhs: UString) -> (r: UString)
        ensures
            r@ == self@ + rhs@,
    {
        let mut s = UString::from_text(self);
        s.push_ustring(rhs);
        s
    }
}

impl<'a> AddSpecImpl<UString> for &'a str {
    open spec fn obeys_add_spec() -> bool {
        false
    }

    open spec fn add_req(self, rhs: UString) -> bool {
        true
    }

    open spec fn add_spec(self, rhs: UString) -> UString {
        arbitrary()
    }
}

impl<'a> core::ops::AddAssign<&'a str> for UString {
    fn add_assign(&mut self, rhs: &'a str)
        ensures
            final(self)@ == old(self)@ + rhs@,
    {
        self.push_str(rhs);
    }
}

impl core::ops::AddAssign for UString {
    fn add_assign(&mut self, rhs: UString)
        ensures
            final(self)@ == old(self)@ + rhs@,
    {
        self.push_ustring(rhs);
    }
}

/// A string made by appending `b` to `a` is cut back into `a` and `b` at the length of `a`, and
/// reads, past that length, as `b` does.
pub proof fn law_append_then_cut(a: Seq<char>, b: Seq<char>)
    ensures
        (a + b).subrange(0, a.len() as int) == a,
        (a + b).subrange(a.len() as int, (a + b).len() as int) == b,
        forall|i: int| 0 <= i < b.len() ==> (a + b)[a.len() + i] == b[i],
{
    assert((a + b).subrange(0, a.len() as int) =~= a);
    assert((a + b).subrange(a.len() as int, (a + b).len() as int) =~= b);
}

} // verus!
