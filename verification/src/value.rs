//! Runtime value model: a tagged union of nil, booleans, integers, float
//! literals (carried by their text), three size-tiered string forms, table
//! handles and native functions.

use std::rc::Rc;
use vstd::math::min;
use vstd::std_specs::cmp::PartialEqSpec;
use vstd::prelude::*;

verus! {

/// Longest byte string stored inline in a value.
pub const SHORT_STR_MAX: usize = 14;

/// Longest byte string stored in the shared fixed-size buffer tier.
pub const MID_STR_MAX: usize = 47;

/// The built-in native functions, dispatched by tag.
#[derive(Clone, Copy, Debug, PartialEq, Eq, Structural)]
pub enum NativeFn {
    /// Writes the display form of its single argument and a newline.
    Print,
}

/// Mathematical model of a runtime value. String content is kept per tier,
/// so two values are equal exactly when their models are equal.
pub enum ValueV {
    Nil,
    Boolean(bool),
    Integer(i64),
    /// A float literal, modelled by its source text (digits, a dot, digits).
    Float(Seq<u8>),
    ShortStr(Seq<u8>),
    MidStr(Seq<u8>),
    LongStr(Seq<u8>),
    /// Handle of a shared table.
    Table(nat),
    Function(NativeFn),
}

/// A runtime value.
#[derive(Debug)]
pub enum Value {
    Nil,
    Boolean(bool),
    Integer(i64),
    /// A float literal, stored as its source text (digits, a dot, digits).
    /// Floating-point arithmetic stays outside the verified core, so the
    /// literal is kept exactly as written and printed back as written.
    Float(Vec<u8>),
    /// Inline tier: byte length, then a fixed buffer holding the content.
    ShortStr(u8, [u8; 14]),
    /// Shared fixed-buffer tier: byte length, then the content.
    MidStr(Rc<(u8, [u8; 47])>),
    /// Shared heap tier, arbitrary length.
    LongStr(Rc<Vec<u8>>),
    /// Handle of a shared table (see [`Table`]).
    Table(usize),
    Function(NativeFn),
}

/// A table: a dense array part and an association-list mapping part.
/// Well-formed tables keep the mapping keys unique. Tables are shared:
/// a `Value::Table` carries a handle, any number of which may alias one
/// table kept in an arena by the owner of the values — so mutation through
/// one handle is visible through all.
#[derive(Debug)]
pub struct Table {
    pub array: Vec<Value>,
    pub map: Vec<(Value, Value)>,
}

impl Table {
    /// The mapping part holds each key at most once.
    pub open spec fn wf(&self) -> bool {
        forall|i: int, j: int|
            0 <= i < j < self.map@.len() ==> self.map@[i].0@ != self.map@[j].0@
    }
}

impl View for Value {
    type V = ValueV;

    open spec fn view(&self) -> ValueV {
        match *self {
            Value::Nil => ValueV::Nil,
            Value::Boolean(b) => ValueV::Boolean(b),
            Value::Integer(i) => ValueV::Integer(i),
            Value::Float(ref text) => ValueV::Float(text@),
            Value::ShortStr(len, buf) => ValueV::ShortStr(buf@.take(min(len as int, 14))),
            Value::MidStr(rc) => ValueV::MidStr(rc.1@.take(min(rc.0 as int, 47))),
            Value::LongStr(rc) => ValueV::LongStr(rc@),
            Value::Table(h) => ValueV::Table(h as nat),
            Value::Function(f) => ValueV::Function(f),
        }
    }
}

impl Value {
    /// A value is well formed when its string tier is the one its byte
    /// length selects: at most 14 bytes inline, at most 47 in the shared
    /// fixed buffer, longer content on the shared heap.
    pub open spec fn wf(self) -> bool {
        match self {
            Value::ShortStr(len, buf) => len <= 14,
            Value::MidStr(rc) => 14 < rc.0 <= 47,
            Value::LongStr(rc) => rc@.len() > 47,
            _ => true,
        }
    }
}

/// The string model the tier constructor produces for the given content:
/// the tier is chosen by byte length alone.
pub open spec fn str_view_of(bytes: Seq<u8>) -> ValueV {
    if bytes.len() <= 14 {
        ValueV::ShortStr(bytes)
    } else if bytes.len() <= 47 {
        ValueV::MidStr(bytes)
    } else {
        ValueV::LongStr(bytes)
    }
}

/// The byte content of a string value's model, if it is one.
pub open spec fn str_bytes_of(v: ValueV) -> Option<Seq<u8>> {
    match v {
        ValueV::ShortStr(s) => Some(s),
        ValueV::MidStr(s) => Some(s),
        ValueV::LongStr(s) => Some(s),
        _ => None,
    }
}

/// The tier boundaries: content of at most 14 bytes is stored inline, of
/// 15 to 47 bytes in the shared fixed buffer, and anything longer on the
/// shared heap.
pub proof fn lemma_string_tier_boundaries(bytes: Seq<u8>)
    ensures
        bytes.len() <= 14 ==> str_view_of(bytes) is ShortStr,
        14 < bytes.len() <= 47 ==> str_view_of(bytes) is MidStr,
        bytes.len() > 47 ==> str_view_of(bytes) is LongStr,
{
}

/// Round trip: whatever tier content lands in, reading the string back
/// recovers the original bytes exactly.
pub proof fn lemma_str_round_trip(bytes: Seq<u8>)
    ensures
        str_bytes_of(str_view_of(bytes)) == Some(bytes),
{
}

/// Two string values built from identical byte content land in the same
/// tier and are equal.
pub proof fn lemma_same_content_strings_equal(v1: Value, v2: Value, bytes: Seq<u8>)
    requires
        v1@ == str_view_of(bytes),
        v2@ == str_view_of(bytes),
    ensures
        v1.eq_spec(&v2),
{
}

/// Copies a byte vector.
pub(crate) fn copy_bytes(src: &Vec<u8>) -> (r: Vec<u8>)
    ensures
        r@ == src@,
{
    let mut r: Vec<u8> = Vec::new();
    let mut i: usize = 0;
    let n = src.len();
    while i < n
        invariant
            n == src@.len(),
            i <= n,
            r@ =~= src@.take(i as int),
        decreases n - i,
    {
        r.push(src[i]);
        i += 1;
    }
    proof {
        assert(src@.take(n as int) =~= src@);
    }
    r
}

/// Relies on `Rc::clone` (std): the returned handle refers to the same
/// shared allocation, so it carries the same value.
#[verifier::external_body]
fn rc_dup<T>(rc: &Rc<T>) -> (r: Rc<T>)
    ensures
        r == *rc,
{
    Rc::clone(rc)
}

impl Clone for Value {
    fn clone(&self) -> (r: Self)
        ensures
            r@ == self@,
            self.wf() ==> r.wf(),
    {
        let r = match self {
            Value::Nil => Value::Nil,
            Value::Boolean(b) => Value::Boolean(*b),
            Value::Integer(i) => Value::Integer(*i),
            Value::Float(text) => Value::Float(copy_bytes(text)),
            Value::ShortStr(len, buf) => Value::ShortStr(*len, *buf),
            Value::MidStr(rc) => Value::MidStr(rc_dup(rc)),
            Value::LongStr(rc) => Value::LongStr(rc_dup(rc)),
            Value::Table(h) => Value::Table(*h),
            Value::Function(f) => Value::Function(*f),
        };
        r
    }
}

impl Value {
    /// Builds a string value from its content; the tier is selected by the
    /// byte length alone, so equal content always lands in the same tier.
    pub fn from_bytes(bytes: Vec<u8>) -> (v: Value)
        ensures
            v@ == str_view_of(bytes@),
            v.wf(),
    {
        let len = bytes.len();
        if len <= SHORT_STR_MAX {
            let mut buf = [0u8; 14];
            let mut i: usize = 0;
            while i < len
                invariant
                    len <= 14,
                    len == bytes@.len(),
                    i <= len,
                    forall|j: int| 0 <= j < i ==> buf@[j] == bytes@[j],
                decreases len - i,
            {
                buf[i] = bytes[i];
                i += 1;
            }
            let v = Value::ShortStr(len as u8, buf);
            proof {
                assert(buf@.take(min(len as int, 14)) =~= bytes@);
            }
            v
        } else if len <= MID_STR_MAX {
            let mut buf = [0u8; 47];
            let mut i: usize = 0;
            while i < len
                invariant
                    14 < len <= 47,
                    len == bytes@.len(),
                    i <= len,
                    forall|j: int| 0 <= j < i ==> buf@[j] == bytes@[j],
                decreases len - i,
            {
                buf[i] = bytes[i];
                i += 1;
            }
            let rc = Rc::new((len as u8, buf));
            let v = Value::MidStr(rc);
            proof {
                assert(buf@.take(min(len as int, 47)) =~= bytes@);
            }
            v
        } else {
            Value::LongStr(Rc::new(bytes))
        }
    }

    /// The byte content of a string value, or `None` for any other kind.
    pub fn as_str_bytes(&self) -> (r: Option<Vec<u8>>)
        ensures
            match r {
                Some(bytes) => str_bytes_of(self@) == Some::<Seq<u8>>(bytes@),
                None => str_bytes_of(self@) is None,
            },
    {
        match self {
            Value::ShortStr(len, buf) => {
                let n: usize = if *len as usize <= 14 { *len as usize } else { 14 };
                let mut out: Vec<u8> = Vec::new();
                let mut i: usize = 0;
                while i < n
                    invariant
                        n <= 14,
                        n == min(*len as int, 14),
                        i <= n,
                        out@ =~= buf@.take(i as int),
                    decreases n - i,
                {
                    out.push(buf[i]);
                    i += 1;
                }
                Some(out)
            }
            Value::MidStr(rc) => {
                let len = rc.0;
                let n: usize = if len as usize <= 47 { len as usize } else { 47 };
                let mut out: Vec<u8> = Vec::new();
                let mut i: usize = 0;
                while i < n
                    invariant
                        n <= 47,
                        n == min(rc.0 as int, 47),
                        i <= n,
                        out@ =~= rc.1@.take(i as int),
                    decreases n - i,
                {
                    out.push(rc.1[i]);
                    i += 1;
                }
                Some(out)
            }
            Value::LongStr(rc) => {
                let mut out: Vec<u8> = Vec::new();
                let mut i: usize = 0;
                let n = rc.len();
                while i < n
                    invariant
                        n == rc@.len(),
                        i <= n,
                        out@ =~= rc@.take(i as int),
                    decreases n - i,
                {
                    out.push(rc[i]);
                    i += 1;
                }
                proof {
                    assert(rc@.take(n as int) =~= rc@);
                }
                Some(out)
            }
            _ => None,
        }
    }
}

/// Compares the first `n` bytes of two buffers.
fn bytes_eq_upto(a: &[u8], b: &[u8], n: usize) -> (r: bool)
    requires
        n <= a@.len(),
        n <= b@.len(),
    ensures
        r == (a@.take(n as int) == b@.take(n as int)),
{
    let mut i: usize = 0;
    while i < n
        invariant
            i <= n,
            n <= a@.len(),
            n <= b@.len(),
            forall|j: int| 0 <= j < i ==> a@[j] == b@[j],
        decreases n - i,
    {
        if a[i] != b[i] {
            proof {
                assert(a@.take(n as int)[i as int] != b@.take(n as int)[i as int]);
            }
            return false;
        }
        i += 1;
    }
    proof {
        assert(a@.take(n as int) =~= b@.take(n as int));
    }
    true
}

/// Compares two byte vectors by content.
pub(crate) fn bytes_equal(a: &Vec<u8>, b: &Vec<u8>) -> (r: bool)
    ensures
        r == (a@ == b@),
{
    if a.len() != b.len() {
        return false;
    }
    let same = bytes_eq_upto(a.as_slice(), b.as_slice(), a.len());
    proof {
        assert(a@.take(a@.len() as int) =~= a@);
        assert(b@.take(b@.len() as int) =~= b@);
    }
    same
}

impl PartialEq for Value {
    /// Equality follows the model: within a string tier it compares byte
    /// content; floats compare by bit pattern; tables compare by handle.
    fn eq(&self, other: &Self) -> (r: bool) {
        match (self, other) {
            (Value::Nil, Value::Nil) => true,
            (Value::Boolean(l), Value::Boolean(r)) => *l == *r,
            (Value::Integer(l), Value::Integer(r)) => *l == *r,
            (Value::Float(l), Value::Float(r)) => {
                if l.len() != r.len() {
                    false
                } else {
                    let same = bytes_eq_upto(l.as_slice(), r.as_slice(), l.len());
                    proof {
                        assert(l@.take(l@.len() as int) =~= l@);
                        assert(r@.take(r@.len() as int) =~= r@);
                    }
                    same
                }
            }
            (Value::ShortStr(ll, sl), Value::ShortStr(lr, sr)) => {
                let nl: usize = if *ll as usize <= 14 { *ll as usize } else { 14 };
                let nr: usize = if *lr as usize <= 14 { *lr as usize } else { 14 };
                if nl != nr {
                    proof {
                        assert(sl@.take(nl as int).len() == nl);
                        assert(sr@.take(nr as int).len() == nr);
                    }
                    false
                } else {
                    bytes_eq_upto(sl.as_slice(), sr.as_slice(), nl)
                }
            }
            (Value::MidStr(l), Value::MidStr(r)) => {
                let nl: usize = if l.0 as usize <= 47 { l.0 as usize } else { 47 };
                let nr: usize = if r.0 as usize <= 47 { r.0 as usize } else { 47 };
                if nl != nr {
                    proof {
                        assert(l.1@.take(nl as int).len() == nl);
                        assert(r.1@.take(nr as int).len() == nr);
                    }
                    false
                } else {
                    bytes_eq_upto(l.1.as_slice(), r.1.as_slice(), nl)
                }
            }
            (Value::LongStr(l), Value::LongStr(r)) => {
                if l.len() != r.len() {
                    false
                } else {
                    let same = bytes_eq_upto(l.as_slice(), r.as_slice(), l.len());
                    proof {
                        assert(l@.take(l@.len() as int) =~= l@);
                        assert(r@.take(r@.len() as int) =~= r@);
                    }
                    same
                }
            }
            (Value::Table(l), Value::Table(r)) => *l == *r,
            (Value::Function(l), Value::Function(r)) => *l == *r,
            _ => false,
        }
    }
}

impl vstd::std_specs::cmp::PartialEqSpecImpl for Value {
    open spec fn obeys_eq_spec() -> bool {
        true
    }

    open spec fn eq_spec(&self, other: &Value) -> bool {
        self@ == other@
    }
}

/// Decimal digits of a natural number, most significant first.
pub open spec fn dec_digits(n: nat) -> Seq<u8>
    decreases n,
{
    if n < 10 {
        seq![(48 + n) as u8]
    } else {
        dec_digits(n / 10) + seq![(48 + n % 10) as u8]
    }
}

/// Decimal text of an integer: a minus sign for negative values, then the
/// digits of its magnitude.
pub open spec fn dec_text(i: int) -> Seq<u8> {
    if i < 0 {
        seq![45u8] + dec_digits((-i) as nat)
    } else {
        dec_digits(i as nat)
    }
}

fn dec_digits_exec(n: u64) -> (r: Vec<u8>)
    ensures
        r@ == dec_digits(n as nat),
    decreases n,
{
    if n < 10 {
        let mut r: Vec<u8> = Vec::new();
        r.push(48 + n as u8);
        proof {
            assert(r@ =~= dec_digits(n as nat));
        }
        r
    } else {
        let mut r = dec_digits_exec(n / 10);
        r.push(48 + (n % 10) as u8);
        proof {
            assert(r@ =~= dec_digits(n as nat));
        }
        r
    }
}

/// Writes the decimal text of `i`.
pub fn int_display(i: i64) -> (r: Vec<u8>)
    ensures
        r@ == dec_text(i as int),
{
    if i >= 0 {
        dec_digits_exec(i as u64)
    } else {
        let mag: u64 = (-(i as i128)) as u64;
        let mut r: Vec<u8> = Vec::new();
        r.push(45);
        let mut digits = dec_digits_exec(mag);
        r.append(&mut digits);
        proof {
            assert(r@ =~= dec_text(i as int));
        }
        r
    }
}

/// The display form of a value: what `print` writes for it.
pub open spec fn display_of(v: ValueV) -> Seq<u8> {
    match v {
        ValueV::Nil => seq![110u8, 105u8, 108u8],
        ValueV::Boolean(b) => if b {
            seq![116u8, 114u8, 117u8, 101u8]
        } else {
            seq![102u8, 97u8, 108u8, 115u8, 101u8]
        },
        ValueV::Integer(i) => dec_text(i as int),
        ValueV::Float(text) => text,
        ValueV::ShortStr(s) => s,
        ValueV::MidStr(s) => s,
        ValueV::LongStr(s) => s,
        ValueV::Table(h) => seq![116u8, 97u8, 98u8, 108u8, 101u8, 58u8, 32u8] + dec_digits(h),
        ValueV::Function(f) => seq![
            102u8,
            117u8,
            110u8,
            99u8,
            116u8,
            105u8,
            111u8,
            110u8,
        ],
    }
}

impl Value {
    /// Writes the display form of the value.
    pub fn display_bytes(&self) -> (r: Vec<u8>)
        ensures
            r@ == display_of(self@),
    {
        match self {
            Value::Nil => {
                let r = vec![110u8, 105u8, 108u8];
                proof {
                    assert(r@ =~= display_of(self@));
                }
                r
            }
            Value::Boolean(b) => {
                let r = if *b {
                    vec![116u8, 114u8, 117u8, 101u8]
                } else {
                    vec![102u8, 97u8, 108u8, 115u8, 101u8]
                };
                proof {
                    assert(r@ =~= display_of(self@));
                }
                r
            }
            Value::Integer(i) => int_display(*i),
            Value::Float(text) => copy_bytes(text),
            Value::ShortStr(_, _) | Value::MidStr(_) | Value::LongStr(_) => {
                let r = self.as_str_bytes();
                match r {
                    Some(bytes) => bytes,
                    None => {
                        proof {
                            assert(false);
                        }
                        Vec::new()
                    }
                }
            }
            Value::Table(h) => {
                let mut r = vec![116u8, 97u8, 98u8, 108u8, 101u8, 58u8, 32u8];
                let mut digits = dec_digits_exec(*h as u64);
                r.append(&mut digits);
                proof {
                    assert(r@ =~= display_of(self@));
                }
                r
            }
            Value::Function(_) => {
                let r = vec![102u8, 117u8, 110u8, 99u8, 116u8, 105u8, 111u8, 110u8];
                proof {
                    assert(r@ =~= display_of(self@));
                }
                r
            }
        }
    }
}

} // verus!
