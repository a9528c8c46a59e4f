//! The key interface shared by category and segment keys.

use vstd::prelude::*;

use crate::decimal::{append_decimal, append_signed_decimal, dec_rep, push_char, signed_dec_rep};

verus! {

/// A key usable in an `OrderedSet`: it carries a decidable equivalence,
/// an exact clone, a default value, and a display label.
///
/// `key_eq` is the equality the aggregation engine works modulo: value
/// equality for integers and characters, character-sequence equality for
/// strings.
pub trait ChartKey: Sized {
    /// The equivalence relation under which keys are identified.
    spec fn key_eq(&self, other: &Self) -> bool;

    /// The character sequence that `key_label` renders.
    spec fn key_label_spec(&self) -> Seq<char>;

    /// Whether this is the default value of the key type.
    spec fn is_default(&self) -> bool;

    proof fn lemma_key_eq_reflexive(&self)
        ensures
            self.key_eq(self),
    ;

    proof fn lemma_key_eq_symmetric(&self, other: &Self)
        ensures
            self.key_eq(other) ==> other.key_eq(self),
    ;

    proof fn lemma_key_eq_transitive(&self, mid: &Self, other: &Self)
        ensures
            self.key_eq(mid) && mid.key_eq(other) ==> self.key_eq(other),
    ;

    /// Decides `key_eq`.
    fn eq_key(&self, other: &Self) -> (r: bool)
        ensures
            r == self.key_eq(other),
    ;

    /// An exact copy of the key.
    fn clone_key(&self) -> (r: Self)
        ensures
            r == *self,
    ;

    /// The default value of the key type.
    fn default_key() -> (r: Self)
        ensures
            r.is_default(),
    ;

    /// The display label of the key.
    fn key_label(&self) -> (r: String)
        ensures
            r@ == self.key_label_spec(),
    ;
}

impl ChartKey for usize {
    open spec fn key_eq(&self, other: &Self) -> bool {
        *self == *other
    }

    open spec fn key_label_spec(&self) -> Seq<char> {
        dec_rep(*self as int)
    }

    open spec fn is_default(&self) -> bool {
        *self == 0
    }

    proof fn lemma_key_eq_reflexive(&self) {
    }

    proof fn lemma_key_eq_symmetric(&self, other: &Self) {
    }

    proof fn lemma_key_eq_transitive(&self, mid: &Self, other: &Self) {
    }

    fn eq_key(&self, other: &Self) -> (r: bool) {
        *self == *other
    }

    fn clone_key(&self) -> (r: Self) {
        *self
    }

    fn default_key() -> (r: Self) {
        0
    }

    fn key_label(&self) -> (r: String) {
        let mut s = String::new();
        append_decimal(&mut s, *self as u64);
        proof {
            assert(s@ =~= self.key_label_spec());
        }
        s
    }
}

impl ChartKey for u8 {
    open spec fn key_eq(&self, other: &Self) -> bool {
        *self == *other
    }

    open spec fn key_label_spec(&self) -> Seq<char> {
        dec_rep(*self as int)
    }

    open spec fn is_default(&self) -> bool {
        *self == 0
    }

    proof fn lemma_key_eq_reflexive(&self) {
    }

    proof fn lemma_key_eq_symmetric(&self, other: &Self) {
    }

    proof fn lemma_key_eq_transitive(&self, mid: &Self, other: &Self) {
    }

    fn eq_key(&self, other: &Self) -> (r: bool) {
        *self == *other
    }

    fn clone_key(&self) -> (r: Self) {
        *self
    }

    fn default_key() -> (r: Self) {
        0
    }

    fn key_label(&self) -> (r: String) {
        let mut s = String::new();
        append_decimal(&mut s, *self as u64);
        proof {
            assert(s@ =~= self.key_label_spec());
        }
        s
    }
}

impl ChartKey for u16 {
    open spec fn key_eq(&self, other: &Self) -> bool {
        *self == *other
    }

    open spec fn key_label_spec(&self) -> Seq<char> {
        dec_rep(*self as int)
    }

    open spec fn is_default(&self) -> bool {
        *self == 0
    }

    proof fn lemma_key_eq_reflexive(&self) {
    }

    proof fn lemma_key_eq_symmetric(&self, other: &Self) {
    }

    proof fn lemma_key_eq_transitive(&self, mid: &Self, other: &Self) {
    }

    fn eq_key(&self, other: &Self) -> (r: bool) {
        *self == *other
    }

    fn clone_key(&self) -> (r: Self) {
        *self
    }

    fn default_key() -> (r: Self) {
        0
    }

    fn key_label(&self) -> (r: String) {
        let mut s = String::new();
        append_decimal(&mut s, *self as u64);
        proof {
            assert(s@ =~= self.key_label_spec());
        }
        s
    }
}

impl ChartKey for u32 {
    open spec fn key_eq(&self, other: &Self) -> bool {
        *self == *other
    }

    open spec fn key_label_spec(&self) -> Seq<char> {
        dec_rep(*self as int)
    }

    open spec fn is_default(&self) -> bool {
        *self == 0
    }

    proof fn lemma_key_eq_reflexive(&self) {
    }

    proof fn lemma_key_eq_symmetric(&self, other: &Self) {
    }

    proof fn lemma_key_eq_transitive(&self, mid: &Self, other: &Self) {
    }

    fn eq_key(&self, other: &Self) -> (r: bool) {
        *self == *other
    }

    fn clone_key(&self) -> (r: Self) {
        *self
    }

    fn default_key() -> (r: Self) {
        0
    }

    fn key_label(&self) -> (r: String) {
        let mut s = String::new();
        append_decimal(&mut s, *self as u64);
        proof {
            assert(s@ =~= self.key_label_spec());
        }
        s
    }
}

impl ChartKey for u64 {
    open spec fn key_eq(&self, other: &Self) -> bool {
        *self == *other
    }

    open spec fn key_label_spec(&self) -> Seq<char> {
        dec_rep(*self as int)
    }

    open spec fn is_default(&self) -> bool {
        *self == 0
    }

    proof fn lemma_key_eq_reflexive(&self) {
    }

    proof fn lemma_key_eq_symmetric(&self, other: &Self) {
    }

    proof fn lemma_key_eq_transitive(&self, mid: &Self, other: &Self) {
    }

    fn eq_key(&self, other: &Self) -> (r: bool) {
        *self == *other
    }

    fn clone_key(&self) -> (r: Self) {
        *self
    }

    fn default_key() -> (r: Self) {
        0
    }

    fn key_label(&self) -> (r: String) {
        let mut s = String::new();
        append_decimal(&mut s, *self);
        proof {
            assert(s@ =~= self.key_label_spec());
        }
        s
    }
}

impl ChartKey for i8 {
    open spec fn key_eq(&self, other: &Self) -> bool {
        *self == *other
    }

    open spec fn key_label_spec(&self) -> Seq<char> {
        signed_dec_rep(*self as int)
    }

    open spec fn is_default(&self) -> bool {
        *self == 0
    }

    proof fn lemma_key_eq_reflexive(&self) {
    }

    proof fn lemma_key_eq_symmetric(&self, other: &Self) {
    }

    proof fn lemma_key_eq_transitive(&self, mid: &Self, other: &Self) {
    }

    fn eq_key(&self, other: &Self) -> (r: bool) {
        *self == *other
    }

    fn clone_key(&self) -> (r: Self) {
        *self
    }

    fn default_key() -> (r: Self) {
        0
    }

    fn key_label(&self) -> (r: String) {
        let mut s = String::new();
        append_signed_decimal(&mut s, *self as i64);
        proof {
            assert(s@ =~= self.key_label_spec());
        }
        s
    }
}

impl ChartKey for i16 {
    open spec fn key_eq(&self, other: &Self) -> bool {
        *self == *other
    }

    open spec fn key_label_spec(&self) -> Seq<char> {
        signed_dec_rep(*self as int)
    }

    open spec fn is_default(&self) -> bool {
        *self == 0
    }

    proof fn lemma_key_eq_reflexive(&self) {
    }

    proof fn lemma_key_eq_symmetric(&self, other: &Self) {
    }

    proof fn lemma_key_eq_transitive(&self, mid: &Self, other: &Self) {
    }

    fn eq_key(&self, other: &Self) -> (r: bool) {
        *self == *other
    }

    fn clone_key(&self) -> (r: Self) {
        *self
    }

    fn default_key() -> (r: Self) {
        0
    }

    fn key_label(&self) -> (r: String) {
        let mut s = String::new();
        append_signed_decimal(&mut s, *self as i64);
        proof {
            assert(s@ =~= self.key_label_spec());
        }
        s
    }
}

impl ChartKey for i32 {
    open spec fn key_eq(&self, other: &Self) -> bool {
        *self == *other
    }

    open spec fn key_label_spec(&self) -> Seq<char> {
        signed_dec_rep(*self as int)
    }

    open spec fn is_default(&self) -> bool {
        *self == 0
    }

    proof fn lemma_key_eq_reflexive(&self) {
    }

    proof fn lemma_key_eq_symmetric(&self, other: &Self) {
    }

    proof fn lemma_key_eq_transitive(&self, mid: &Self, other: &Self) {
    }

    fn eq_key(&self, other: &Self) -> (r: bool) {
        *self == *other
    }

    fn clone_key(&self) -> (r: Self) {
        *self
    }

    fn default_key() -> (r: Self) {
        0
    }

    fn key_label(&self) -> (r: String) {
        let mut s = String::new();
        append_signed_decimal(&mut s, *self as i64);
        proof {
            assert(s@ =~= self.key_label_spec());
        }
        s
    }
}

impl ChartKey for char {
    open spec fn key_eq(&self, other: &Self) -> bool {
        *self == *other
    }

    open spec fn key_label_spec(&self) -> Seq<char> {
        seq![*self]
    }

    open spec fn is_default(&self) -> bool {
        *self == '\x00'
    }

    proof fn lemma_key_eq_reflexive(&self) {
    }

    proof fn lemma_key_eq_symmetric(&self, other: &Self) {
    }

    proof fn lemma_key_eq_transitive(&self, mid: &Self, other: &Self) {
    }

    fn eq_key(&self, other: &Self) -> (r: bool) {
        *self == *other
    }

    fn clone_key(&self) -> (r: Self) {
        *self
    }

    fn default_key() -> (r: Self) {
        '\x00'
    }

    fn key_label(&self) -> (r: String) {
        let mut s = String::new();
        push_char(&mut s, *self);
        proof {
            assert(s@ =~= self.key_label_spec());
        }
        s
    }
}

/// Relies on str's PartialEq: equal exactly when the character sequences
/// are equal.
#[verifier::external_body]
fn str_eq(a: &str, b: &str) -> (r: bool)
    ensures
        r == (a@ == b@),
{
    a == b
}

impl ChartKey for String {
    open spec fn key_eq(&self, other: &Self) -> bool {
        self@ == other@
    }

    open spec fn key_label_spec(&self) -> Seq<char> {
        self@
    }

    open spec fn is_default(&self) -> bool {
        self@ == Seq::<char>::empty()
    }

    proof fn lemma_key_eq_reflexive(&self) {
    }

    proof fn lemma_key_eq_symmetric(&self, other: &Self) {
    }

    proof fn lemma_key_eq_transitive(&self, mid: &Self, other: &Self) {
    }

    fn eq_key(&self, other: &Self) -> (r: bool) {
        self.eq(other)
    }

    fn clone_key(&self) -> (r: Self) {
        self.clone()
    }

    fn default_key() -> (r: Self) {
        String::new()
    }

    fn key_label(&self) -> (r: String) {
        self.clone()
    }
}

impl<'a> ChartKey for &'a str {
    open spec fn key_eq(&self, other: &Self) -> bool {
        self@ == other@
    }

    open spec fn key_label_spec(&self) -> Seq<char> {
        self@
    }

    open spec fn is_default(&self) -> bool {
        self@ == Seq::<char>::empty()
    }

    proof fn lemma_key_eq_reflexive(&self) {
    }

    proof fn lemma_key_eq_symmetric(&self, other: &Self) {
    }

    proof fn lemma_key_eq_transitive(&self, mid: &Self, other: &Self) {
    }

    fn eq_key(&self, other: &Self) -> (r: bool) {
        str_eq(*self, *other)
    }

    fn clone_key(&self) -> (r: Self) {
        *self
    }

    fn default_key() -> (r: Self) {
        let s = "";
        proof {
            reveal_strlit("");
            assert(s@ =~= Seq::<char>::empty());
        }
        s
    }

    fn key_label(&self) -> (r: String) {
        (*self).to_owned()
    }
}

} // verus!
