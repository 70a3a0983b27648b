//! The dynamic value type that flows through the machine, its storage
//! encoding and its textual form.
use vstd::prelude::*;
use vstd::string::*;

use crate::text::{bracketed, int_text, nat_digits, push_byte_list, push_decimal, push_signed};


verus! {

/// A value of the machine. `Float` holds the IEEE-754 bit pattern of a 64-bit float.
pub enum Immediates {
    /// Null type
    Null,
    /// Boolean type
    Boolean(bool),
    /// Integer (i64) type
    Integer(i64),
    /// UInteger (u64) type
    UInteger(u64),
    /// Float type, as the bits of an `f64`
    Float(u64),
    /// Immutable string type
    StaticStr(String),
    /// Mutable string type
    MutStr(String),
    /// Binary type
    Binary(Vec<u8>),
    /// Array of values
    Array(Vec<Immediates>),
}

/// The mathematical model of a value.
pub enum ImmView {
    Null,
    Boolean(bool),
    Integer(i64),
    UInteger(u64),
    Float(u64),
    StaticStr(Seq<char>),
    MutStr(Seq<char>),
    Binary(Seq<u8>),
    Array(Seq<ImmView>),
}

pub open spec fn view_of(v: &Immediates) -> ImmView
    decreases v,
{
    match v {
        Immediates::Null => ImmView::Null,
        Immediates::Boolean(b) => ImmView::Boolean(*b),
        Immediates::Integer(i) => ImmView::Integer(*i),
        Immediates::UInteger(u) => ImmView::UInteger(*u),
        Immediates::Float(f) => ImmView::Float(*f),
        Immediates::StaticStr(s) => ImmView::StaticStr(s@),
        Immediates::MutStr(s) => ImmView::MutStr(s@),
        Immediates::Binary(b) => ImmView::Binary(b@),
        Immediates::Array(a) => ImmView::Array(
            Seq::new(
                a.len() as nat,
                |i: int|
                    if 0 <= i < a.len() {
                        view_of(&a[i])
                    } else {
                        ImmView::Null
                    },
            ),
        ),
    }
}

impl View for Immediates {
    type V = ImmView;

    open spec fn view(&self) -> ImmView {
        view_of(self)
    }
}

/// The kind of a value, without its contents.
#[derive(PartialEq, Eq, Structural, Clone, Copy, Debug)]
pub enum ImmediatesType {
    /// Null type
    Null,
    /// Boolean type
    Boolean,
    /// Integer (i64) type
    Integer,
    /// UInteger (u64) type
    UInteger,
    /// Float type
    Float,
    /// Immutable string type
    StaticStr,
    /// Mutable string type
    MutStr,
    /// Binary type
    Binary,
    /// Array type
    Array,
    /// Reference/pointer type
    RefPtr,
}

/// The kind of a modelled value.
pub open spec fn kind_of(v: ImmView) -> ImmediatesType {
    match v {
        ImmView::Null => ImmediatesType::Null,
        ImmView::Boolean(_) => ImmediatesType::Boolean,
        ImmView::Integer(_) => ImmediatesType::Integer,
        ImmView::UInteger(_) => ImmediatesType::UInteger,
        ImmView::Float(_) => ImmediatesType::Float,
        ImmView::StaticStr(_) => ImmediatesType::StaticStr,
        ImmView::MutStr(_) => ImmediatesType::MutStr,
        ImmView::Binary(_) => ImmediatesType::Binary,
        ImmView::Array(_) => ImmediatesType::Array,
    }
}

/// Width in bytes of the zero-filled buffer that stands for `Null` in storage.
pub const NULL_WIDTH: usize = 32;

/// The little-endian bytes of `u`, `n` of them.
pub open spec fn le_bytes(u: nat, n: nat) -> Seq<u8>
    decreases n,
{
    if n == 0 {
        Seq::empty()
    } else {
        seq![(u % 256) as u8] + le_bytes(u / 256, (n - 1) as nat)
    }
}

/// The two's-complement bit pattern of a 64-bit signed integer.
pub open spec fn i64_bits(i: i64) -> nat {
    if i >= 0 {
        i as nat
    } else {
        (i + 0x1_0000_0000_0000_0000) as nat
    }
}

/// The storage encoding of a value (an array has none).
pub open spec fn storage_bytes(v: ImmView) -> Seq<u8> {
    match v {
        ImmView::Null => Seq::new(NULL_WIDTH as nat, |i: int| 0u8),
        ImmView::Boolean(b) => seq![if b { 1u8 } else { 0u8 }],
        ImmView::Integer(i) => le_bytes(i64_bits(i), 8),
        ImmView::UInteger(u) => le_bytes(u as nat, 8),
        ImmView::Float(f) => le_bytes(f as nat, 8),
        ImmView::StaticStr(s) => vstd::utf8::encode_utf8(s),
        ImmView::MutStr(s) => vstd::utf8::encode_utf8(s),
        ImmView::Binary(b) => b,
        ImmView::Array(_) => Seq::empty(),
    }
}

/// The fixed width of a kind's storage encoding, where it has one.
pub open spec fn fixed_width(t: ImmediatesType) -> Option<nat> {
    match t {
        ImmediatesType::Null => Some(NULL_WIDTH as nat),
        ImmediatesType::Boolean => Some(1),
        ImmediatesType::Integer => Some(8),
        ImmediatesType::UInteger => Some(8),
        ImmediatesType::Float => Some(8),
        _ => None,
    }
}

/// Turns values into their kind.
pub trait ImmediateType: View {
    spec fn spec_kind(&self) -> ImmediatesType;

    /// The kind of this value.
    fn to_immediate_type(&self) -> (r: ImmediatesType)
        ensures
            r == self.spec_kind(),
    ;
}

impl ImmediateType for Immediates {
    open spec fn spec_kind(&self) -> ImmediatesType {
        kind_of(self@)
    }

    fn to_immediate_type(&self) -> (r: ImmediatesType) {
        match self {
            Immediates::Null => ImmediatesType::Null,
            Immediates::Boolean(_) => ImmediatesType::Boolean,
            Immediates::Integer(_) => ImmediatesType::Integer,
            Immediates::UInteger(_) => ImmediatesType::UInteger,
            Immediates::Float(_) => ImmediatesType::Float,
            Immediates::StaticStr(_) => ImmediatesType::StaticStr,
            Immediates::MutStr(_) => ImmediatesType::MutStr,
            Immediates::Binary(_) => ImmediatesType::Binary,
            Immediates::Array(_) => ImmediatesType::Array,
        }
    }
}

/// Serializes values to sequences of bytes.
pub trait Serialize: View {
    /// Whether the value has a storage encoding.
    spec fn serializable(&self) -> bool;

    /// The storage encoding.
    spec fn spec_storage(&self) -> Seq<u8>;

    /// The storage encoding of the value.
    fn serialize(&self) -> (r: Vec<u8>)
        requires
            self.serializable(),
        ensures
            r@ == self.spec_storage(),
    ;

    /// The encoding under which the value is kept on the heap.
    fn serialize_heap(&self) -> (r: Vec<u8>)
        requires
            self.serializable(),
        ensures
            r@ == self.spec_storage(),
    ;
}

/// A boolean as one byte.
pub fn bool_to_bytes(value: bool) -> (r: Vec<u8>)
    ensures
        r@ == seq![if value { 1u8 } else { 0u8 }],
{
    let mut r: Vec<u8> = Vec::new();
    if value {
        r.push(1u8);
    } else {
        r.push(0u8);
    }
    r
}

/// The `n` low little-endian bytes of `u`.
fn to_le(u: u64, n: usize) -> (r: Vec<u8>)
    requires
        n <= 8,
    ensures
        r@ == le_bytes(u as nat, n as nat),
{
    let mut r: Vec<u8> = Vec::new();
    let mut x: u64 = u;
    let mut k: usize = 0;
    while k < n
        invariant
            k <= n,
            r@ + le_bytes(x as nat, (n - k) as nat) == le_bytes(u as nat, n as nat),
        decreases n - k,
    {
        let ghost before = r@;
        r.push((x % 256) as u8);
        assert(le_bytes(x as nat, (n - k) as nat) == seq![(x % 256) as u8] + le_bytes(
            (x / 256) as nat,
            (n - k - 1) as nat,
        ));
        assert(r@ + le_bytes((x / 256) as nat, (n - k - 1) as nat) == before + le_bytes(
            x as nat,
            (n - k) as nat,
        ));
        x = x / 256;
        k = k + 1;
    }
    r
}

/// The two's-complement bits of `i`.
fn signed_bits(i: i64) -> (r: u64)
    ensures
        r as nat == i64_bits(i),
{
    if i >= 0 {
        i as u64
    } else {
        (i as i128 + 0x1_0000_0000_0000_0000i128) as u64
    }
}

/// A fresh copy of a string.
fn copy_string(s: &String) -> (r: String)
    ensures
        r@ == s@,
{
    s.clone()
}

/// The UTF-8 bytes of a string.
fn string_bytes(s: &String) -> (r: Vec<u8>)
    ensures
        r@ == vstd::utf8::encode_utf8(s@),
{
    let b = s.as_str().as_bytes();
    let mut r: Vec<u8> = Vec::new();
    let mut i: usize = 0;
    while i < b.len()
        invariant
            i <= b@.len(),
            r@ == b@.subrange(0, i as int),
        decreases b@.len() - i,
    {
        r.push(b[i]);
        i = i + 1;
        assert(r@ =~= b@.subrange(0, i as int));
    }
    assert(r@ =~= b@);
    r
}

pub(crate) fn copy_bytes(b: &Vec<u8>) -> (r: Vec<u8>)
    ensures
        r@ == b@,
{
    let mut r: Vec<u8> = Vec::new();
    let mut i: usize = 0;
    while i < b.len()
        invariant
            i <= b@.len(),
            r@ == b@.subrange(0, i as int),
        decreases b@.len() - i,
    {
        r.push(b[i]);
        i = i + 1;
        assert(r@ =~= b@.subrange(0, i as int));
    }
    assert(r@ =~= b@);
    r
}

impl Serialize for Immediates {
    open spec fn serializable(&self) -> bool {
        !(self@ is Array)
    }

    open spec fn spec_storage(&self) -> Seq<u8> {
        storage_bytes(self@)
    }

    fn serialize(&self) -> (r: Vec<u8>) {
        self.serialize_heap()
    }

    fn serialize_heap(&self) -> (r: Vec<u8>) {
        match self {
            Immediates::Null => {
                let mut r: Vec<u8> = Vec::new();
                let mut k: usize = 0;
                while k < NULL_WIDTH
                    invariant
                        k <= NULL_WIDTH,
                        r@ == Seq::new(k as nat, |i: int| 0u8),
                    decreases NULL_WIDTH - k,
                {
                    r.push(0u8);
                    k = k + 1;
                    assert(r@ =~= Seq::new(k as nat, |i: int| 0u8));
                }
                r
            },
            Immediates::Boolean(b) => bool_to_bytes(*b),
            Immediates::Integer(i) => to_le(signed_bits(*i), 8),
            Immediates::UInteger(u) => to_le(*u, 8),
            Immediates::Float(f) => to_le(*f, 8),
            Immediates::StaticStr(s) => string_bytes(s),
            Immediates::MutStr(s) => string_bytes(s),
            Immediates::Binary(b) => copy_bytes(b),
            Immediates::Array(_) => Vec::new(),
        }
    }
}

/// The textual form of a value. A float stands here as `Float(<its bits>)`: its
/// decimal form is left to whoever prints it.
pub open spec fn text_of(v: ImmView) -> Seq<char>
    decreases v,
{
    match v {
        ImmView::Null => seq!['N', 'u', 'l', 'l'],
        ImmView::Boolean(b) => if b {
            seq!['t', 'r', 'u', 'e']
        } else {
            seq!['f', 'a', 'l', 's', 'e']
        },
        ImmView::Integer(i) => int_text(i as int),
        ImmView::UInteger(u) => nat_digits(u as nat),
        ImmView::Float(f) => seq!['F', 'l', 'o', 'a', 't', '('] + nat_digits(f as nat) + seq![')'],
        ImmView::StaticStr(s) => s,
        ImmView::MutStr(s) => s,
        ImmView::Binary(b) => bracketed(Seq::new(b.len(), |i: int| nat_digits(b[i] as nat))),
        ImmView::Array(items) => bracketed(texts_of(items)),
    }
}

/// The textual forms of a sequence of values.
pub open spec fn texts_of(items: Seq<ImmView>) -> Seq<Seq<char>>
    decreases items,
{
    if items.len() == 0 {
        Seq::empty()
    } else {
        texts_of(items.drop_last()).push(text_of(items.last()))
    }
}

proof fn lemma_texts_of(items: Seq<ImmView>)
    ensures
        texts_of(items).len() == items.len(),
        forall|i: int| 0 <= i < items.len() ==> texts_of(items)[i] == text_of(items[i]),
    decreases items.len(),
{
    if items.len() > 0 {
        lemma_texts_of(items.drop_last());
    }
}

impl Immediates {
    /// Appends the textual form of this value to `s`.
    pub fn push_text(&self, s: &mut String)
        ensures
            final(s)@ == old(s)@ + text_of(self@),
        decreases self,
    {
        proof {
            reveal_strlit("Null");
            reveal_strlit("true");
            reveal_strlit("false");
            reveal_strlit("Float(");
            reveal_strlit(")");
            reveal_strlit("[");
            reveal_strlit("]");
        }
        match self {
            Immediates::Null => {
                s.append("Null");
                assert(final(s)@ =~= old(s)@ + text_of(self@));
            },
            Immediates::Boolean(b) => {
                if *b {
                    s.append("true");
                } else {
                    s.append("false");
                }
                assert(final(s)@ =~= old(s)@ + text_of(self@));
            },
            Immediates::Integer(i) => {
                push_signed(s, *i);
                assert(final(s)@ =~= old(s)@ + text_of(self@));
            },
            Immediates::UInteger(u) => {
                push_decimal(s, *u);
                assert(final(s)@ =~= old(s)@ + text_of(self@));
            },
            Immediates::Float(f) => {
                s.append("Float(");
                push_decimal(s, *f);
                s.append(")");
                assert(final(s)@ =~= old(s)@ + text_of(self@));
            },
            Immediates::StaticStr(t) => {
                s.append(t.as_str());
                assert(final(s)@ =~= old(s)@ + text_of(self@));
            },
            Immediates::MutStr(t) => {
                s.append(t.as_str());
                assert(final(s)@ =~= old(s)@ + text_of(self@));
            },
            Immediates::Binary(b) => {
                push_byte_list(s, b);
                assert(final(s)@ =~= old(s)@ + text_of(self@));
            },
            Immediates::Array(a) => {
                let ghost items = Seq::new(
                    a@.len(),
                    |i: int| text_of(view_of(&a@[i])),
                );
                let ghost start = s@;
                s.append("[");
                let mut i: usize = 0;
                while i < a.len()
                    invariant
                        i <= a@.len(),
                        *self == Immediates::Array(*a),
                        items == Seq::new(a@.len(), |i: int| text_of(view_of(&a@[i]))),
                        s@ == start + seq!['['] + crate::text::join_items(items.subrange(0, i as int)),
                    decreases a@.len() - i,
                {
                    proof {
                        reveal_strlit(", ");
                        vstd::std_specs::vec::axiom_vec_index_decreases(*a, i as int);
                        assert(decreases_to!(*self => self->Array_0));
                        assert(decreases_to!(*a => a@));
                        assert(decreases_to!(a@ => a@[i as int]));
                    }
                    if i > 0 {
                        s.append(", ");
                    }
                    a[i].push_text(s);
                    proof {
                        let sub = items.subrange(0, i as int + 1);
                        assert(sub.drop_last() =~= items.subrange(0, i as int));
                        if i == 0 {
                            assert(crate::text::join_items(items.subrange(0, 0)) =~= Seq::<char>::empty());
                            assert(s@ =~= start + seq!['['] + crate::text::join_items(sub));
                        } else {
                            assert(sub.last() == text_of(view_of(&a@[i as int])));
                            assert(crate::text::join_items(sub) == crate::text::join_items(sub.drop_last())
                                + seq![',', ' '] + sub.last());
                            assert(", "@ =~= seq![',', ' ']);
                            assert(s@ =~= start + seq!['['] + crate::text::join_items(sub));
                        }
                    }
                    i = i + 1;
                }
                s.append("]");
                proof {
                    assert(items.subrange(0, a@.len() as int) =~= items);
                    if let ImmView::Array(vs) = view_of(self) {
                        lemma_texts_of(vs);
                        assert(texts_of(vs) =~= items);
                    }
                    assert(s@ =~= start + bracketed(items));
                    assert(s@ =~= old(s)@ + text_of(self@));
                }
            },
        }
    }

    /// The textual form of this value.
    pub fn to_text(&self) -> (r: String)
        ensures
            r@ == text_of(self@),
    {
        let mut s = String::new();
        self.push_text(&mut s);
        assert(s@ =~= text_of(self@));
        s
    }

    /// A copy of this value.
    pub fn duplicate(&self) -> (r: Immediates)
        ensures
            r@ == self@,
        decreases self,
    {
        match self {
            Immediates::Null => Immediates::Null,
            Immediates::Boolean(b) => Immediates::Boolean(*b),
            Immediates::Integer(i) => Immediates::Integer(*i),
            Immediates::UInteger(u) => Immediates::UInteger(*u),
            Immediates::Float(f) => Immediates::Float(*f),
            Immediates::StaticStr(s) => Immediates::StaticStr(copy_string(s)),
            Immediates::MutStr(s) => Immediates::MutStr(copy_string(s)),
            Immediates::Binary(b) => Immediates::Binary(copy_bytes(b)),
            Immediates::Array(a) => {
                let mut out: Vec<Immediates> = Vec::new();
                let mut i: usize = 0;
                while i < a.len()
                    invariant
                        i <= a@.len(),
                        *self == Immediates::Array(*a),
                        out@.len() == i,
                        forall|j: int| 0 <= j < i ==> view_of(&out@[j]) == view_of(&a@[j]),
                    decreases a@.len() - i,
                {
                    proof {
                        vstd::std_specs::vec::axiom_vec_index_decreases(*a, i as int);
                        assert(decreases_to!(*self => self->Array_0));
                        assert(decreases_to!(*a => a@));
                        assert(decreases_to!(a@ => a@[i as int]));
                    }
                    let e = a[i].duplicate();
                    out.push(e);
                    i = i + 1;
                }
                let r = Immediates::Array(out);
                assert(view_of(&r) == view_of(self)) by {
                    if let ImmView::Array(x) = view_of(&r) {
                        if let ImmView::Array(y) = view_of(self) {
                            assert(x =~= y);
                        }
                    }
                }
                r
            },
        }
    }
}

} // verus!
