use std::cmp::Ordering;

use vstd::prelude::*;
use vstd::utf8::encode_utf8;

use crate::header::{ALIGN, HEADER_SIZE};
use crate::value::{
    extra_memory, fits, memory_size, str_bytes, total_memory, Field, Payload, Value, ValueError,
};
use crate::vtable::{allocative_key_of, kind_of, type_id_of, type_name_of, AValueVTable, TypeKind, VTables};

verus! {

/// Hash of a byte string: a polynomial of base 31 modulo 2^32.
pub open spec fn str_hash(b: Seq<u8>) -> u32
    decreases b.len(),
{
    if b.len() == 0 {
        0
    } else {
        ((str_hash(b.drop_last()) as int * 31 + b.last() as int) % 0x1_0000_0000) as u32
    }
}

/// The hash of a hashable payload; `None` for containers.
pub open spec fn hash_of(p: Payload) -> Option<u64> {
    match p {
        Payload::NoneValue => Some(0),
        Payload::Bool(b) => Some(if b { 1 } else { 0 }),
        Payload::Int(i) => Some(i as u64),
        Payload::Str(s) => Some(str_hash(str_bytes(s)) as u64),
        _ => None,
    }
}

/// Equality of two live payloads on their own: scalars by value, strings by
/// content, containers by their element references (the same cells). The
/// language's equality, which compares elements through the heaps, is
/// `equality::deep_equal`.
pub open spec fn values_equal(a: Payload, b: Payload) -> bool {
    match (a, b) {
        (Payload::NoneValue, Payload::NoneValue) => true,
        (Payload::Bool(x), Payload::Bool(y)) => x == y,
        (Payload::Int(x), Payload::Int(y)) => x == y,
        (Payload::Str(x), Payload::Str(y)) => x@ == y@,
        (Payload::List(xs), Payload::List(ys)) => xs@ == ys@,
        (Payload::Record(fs), Payload::Record(gs)) => {
            &&& fs@.len() == gs@.len()
            &&& forall|i: int| #![trigger fs@[i]]
                0 <= i < fs@.len() ==> fs@[i].name@ == gs@[i].name@ && fs@[i].value == gs@[i].value
        },
        _ => false,
    }
}

/// Order of two integers.
pub open spec fn int_cmp(x: int, y: int) -> Ordering {
    if x < y {
        Ordering::Less
    } else if x > y {
        Ordering::Greater
    } else {
        Ordering::Equal
    }
}

/// Lexicographic order of two byte strings.
pub open spec fn bytes_cmp(a: Seq<u8>, b: Seq<u8>) -> Ordering
    decreases a.len(),
{
    if a.len() == 0 {
        if b.len() == 0 {
            Ordering::Equal
        } else {
            Ordering::Less
        }
    } else if b.len() == 0 {
        Ordering::Greater
    } else if a[0] != b[0] {
        int_cmp(a[0] as int, b[0] as int)
    } else {
        bytes_cmp(a.drop_first(), b.drop_first())
    }
}

/// Order of two live payloads: scalars of one type by value, strings by
/// their UTF-8 bytes; other pairs are not ordered.
pub open spec fn compare_of(a: Payload, b: Payload) -> Result<Ordering, ValueError> {
    match (a, b) {
        (Payload::NoneValue, Payload::NoneValue) => Ok(Ordering::Equal),
        (Payload::Bool(x), Payload::Bool(y)) => Ok(int_cmp(if x { 1 } else { 0 }, if y { 1 } else { 0 })),
        (Payload::Int(x), Payload::Int(y)) => Ok(int_cmp(x as int, y as int)),
        (Payload::Str(x), Payload::Str(y)) => Ok(bytes_cmp(str_bytes(x), str_bytes(y))),
        _ => Err(ValueError::Unsupported),
    }
}

fn cmp_ints(x: i64, y: i64) -> (r: Ordering)
    ensures
        r == int_cmp(x as int, y as int),
{
    if x < y {
        Ordering::Less
    } else if x > y {
        Ordering::Greater
    } else {
        Ordering::Equal
    }
}

/// Lexicographic comparison of two byte strings (see `bytes_cmp`).
fn cmp_bytes(a: &[u8], b: &[u8]) -> (r: Ordering)
    ensures
        r == bytes_cmp(a@, b@),
{
    let mut i: usize = 0;
    assert(a@.subrange(0, a@.len() as int) =~= a@);
    assert(b@.subrange(0, b@.len() as int) =~= b@);
    while i < a.len() && i < b.len()
        invariant
            i <= a@.len(),
            i <= b@.len(),
            bytes_cmp(a@, b@) == bytes_cmp(a@.subrange(i as int, a@.len() as int), b@.subrange(i as int, b@.len() as int)),
        decreases a@.len() - i,
    {
        let ghost sa = a@.subrange(i as int, a@.len() as int);
        let ghost sb = b@.subrange(i as int, b@.len() as int);
        if a[i] != b[i] {
            return cmp_ints(a[i] as i64, b[i] as i64);
        }
        assert(sa.drop_first() =~= a@.subrange(i as int + 1, a@.len() as int));
        assert(sb.drop_first() =~= b@.subrange(i as int + 1, b@.len() as int));
        i = i + 1;
    }
    if i < a.len() {
        Ordering::Greater
    } else if i < b.len() {
        Ordering::Less
    } else {
        Ordering::Equal
    }
}

/// A slice bound clamped into a sequence of `n` elements: a negative
/// bound counts from the end; past either end it stops at the first or
/// last position the walk in direction `step` can take.
pub open spec fn clamp_bound(v: int, n: int, step: int) -> int {
    let v = if v < 0 { v + n } else { v };
    if step > 0 {
        if v < 0 {
            0
        } else if v > n {
            n
        } else {
            v
        }
    } else {
        if v < 0 {
            -1
        } else if v >= n {
            n - 1
        } else {
            v
        }
    }
}

/// The elements at `i`, `i + step`, ... below `stop`, for a positive step.
pub open spec fn slice_up(xs: Seq<Value>, i: int, stop: int, step: nat) -> Seq<Value>
    decreases stop - i,
{
    if step > 0 && i < stop {
        if i + step < stop {
            seq![xs[i]] + slice_up(xs, i + step, stop, step)
        } else {
            seq![xs[i]]
        }
    } else {
        Seq::empty()
    }
}

/// The elements at `i`, `i - step`, ... above `stop`, for a positive
/// `step` walked backward.
pub open spec fn slice_down(xs: Seq<Value>, i: int, stop: int, step: nat) -> Seq<Value>
    decreases i - stop,
{
    if step > 0 && i > stop {
        if i - step > stop {
            seq![xs[i]] + slice_down(xs, i - step, stop, step)
        } else {
            seq![xs[i]]
        }
    } else {
        Seq::empty()
    }
}

/// The elements at `i`, `i + step`, ... strictly before `stop` in the
/// direction of `step`.
pub open spec fn slice_from(xs: Seq<Value>, i: int, stop: int, step: int) -> Seq<Value> {
    if step > 0 {
        slice_up(xs, i, stop, step as nat)
    } else if step < 0 {
        slice_down(xs, i, stop, (-step) as nat)
    } else {
        Seq::empty()
    }
}

/// `xs[start:stop:step]` with the defaults and clamping of slices: step 1;
/// from the first element forward, or from the last backward; to the end
/// in the direction of the step.
pub open spec fn slice_of(xs: Seq<Value>, start: Option<i64>, stop: Option<i64>, step: Option<i64>) -> Seq<Value> {
    let n = xs.len() as int;
    let st: int = match step { Some(v) => v as int, None => 1 };
    let a = match start {
        Some(v) => clamp_bound(v as int, n, st),
        None => if st > 0 { 0 } else { n - 1 },
    };
    let b = match stop {
        Some(v) => clamp_bound(v as int, n, st),
        None => if st > 0 { n } else { -1 },
    };
    slice_from(xs, a, b, st)
}

fn clamp_exec(v: i64, n: i128, step: i128) -> (r: i128)
    requires
        0 <= n <= u64::MAX,
        step != 0,
    ensures
        r == clamp_bound(v as int, n as int, step as int),
{
    let v: i128 = if v < 0 { v as i128 + n } else { v as i128 };
    if step > 0 {
        if v < 0 { 0 } else if v > n { n } else { v }
    } else {
        if v < 0 { -1 } else if v >= n { n - 1 } else { v }
    }
}

/// Integer division rounding toward negative infinity.
pub open spec fn floor_div_of(x: int, y: int) -> int {
    if y > 0 {
        x / y
    } else {
        (-x) / (-y)
    }
}

/// The remainder that goes with `floor_div_of`: it has the sign of `y`.
pub open spec fn floor_mod_of(x: int, y: int) -> int {
    if y > 0 {
        x % y
    } else {
        -((-x) % (-y))
    }
}

/// Two to the power `n`.
pub open spec fn pow2(n: nat) -> int
    decreases n,
{
    if n == 0 {
        1
    } else {
        2 * pow2((n - 1) as nat)
    }
}

proof fn lemma_pow2_split(k: nat, m: nat)
    ensures
        pow2(k + m) == pow2(k) * pow2(m),
        pow2(m) >= 1,
    decreases m,
{
    if m > 0 {
        lemma_pow2_split(k, (m - 1) as nat);
        assert(pow2(k + m) == 2 * pow2((k + m - 1) as nat));
        assert(pow2(k) * (2 * pow2((m - 1) as nat)) == 2 * (pow2(k) * pow2((m - 1) as nat))) by (nonlinear_arith);
    }
}

/// `x` halved `n` times, each time rounding toward negative infinity: `x`
/// shifted right by `n` bits.
pub open spec fn halved(x: int, n: nat) -> int
    decreases n,
{
    if n == 0 {
        x
    } else {
        halved(x / 2, (n - 1) as nat)
    }
}

proof fn lemma_halved_fixed(c: int, n: nat)
    requires
        c == 0 || c == -1,
    ensures
        halved(c, n) == c,
    decreases n,
{
    if n > 0 {
        assert(c / 2 == c);
        lemma_halved_fixed(c, (n - 1) as nat);
    }
}

/// A running hash state after taking in hash `h`.
pub open spec fn mix(state: u64, h: u64) -> u64 {
    ((state as int * 31 + h as int) % 0x1_0000_0000_0000_0000) as u64
}

/// Truth value of a live payload: false for `None`, `False`, zero and empty
/// strings and containers.
pub open spec fn truth(p: Payload) -> bool {
    match p {
        Payload::NoneValue => false,
        Payload::Bool(b) => b,
        Payload::Int(i) => i != 0,
        Payload::Str(s) => s@.len() > 0,
        Payload::List(xs) => xs@.len() > 0,
        Payload::Record(fs) => fs@.len() > 0,
        Payload::Tombstone(_) => false,
    }
}

/// An integer result, or `Overflow` outside the range of `i64`.
pub open spec fn int_result(v: int) -> Result<Payload, ValueError> {
    if i64::MIN <= v <= i64::MAX {
        Ok(Payload::Int(v as i64))
    } else {
        Err(ValueError::Overflow)
    }
}

fn checked(v: Option<i64>) -> (r: Result<Payload, ValueError>)
    ensures
        v is Some ==> r == Ok::<Payload, ValueError>(Payload::Int(v->Some_0)),
        v is None ==> r == Err::<Payload, ValueError>(ValueError::Overflow),
{
    match v {
        Some(x) => Ok(Payload::Int(x)),
        None => Err(ValueError::Overflow),
    }
}

/// Whether field `i` of `fs` is the first one named `name`.
pub open spec fn first_field(fs: Seq<Field>, name: Seq<char>, i: int) -> bool {
    &&& 0 <= i < fs.len()
    &&& fs[i].name@ == name
    &&& forall|k: int| 0 <= k < i ==> #[trigger] fs[k].name@ != name
}

/// Whether two strings hold the same characters.
fn str_eq(a: &str, b: &str) -> (r: bool)
    ensures
        r == (a@ == b@),
{
    String::from_str(a) == String::from_str(b)
}

/// The text of decimal digit `d`.
pub open spec fn digit_text(d: int) -> Seq<char> {
    if d == 0 { "0"@ } else if d == 1 { "1"@ } else if d == 2 { "2"@ } else if d == 3 { "3"@ }
    else if d == 4 { "4"@ } else if d == 5 { "5"@ } else if d == 6 { "6"@ } else if d == 7 { "7"@ }
    else if d == 8 { "8"@ } else { "9"@ }
}

/// Decimal digits of a natural number, most significant first.
pub open spec fn decimal(n: nat) -> Seq<char>
    decreases n,
{
    if n < 10 {
        digit_text(n as int)
    } else {
        decimal(n / 10) + digit_text((n % 10) as int)
    }
}

/// Decimal text of an integer, with a leading `-` when negative.
pub open spec fn int_text(i: int) -> Seq<char> {
    if i < 0 {
        "-"@ + decimal((-i) as nat)
    } else {
        decimal(i as nat)
    }
}

/// The text a value shows when reached again while it is being shown:
/// scalars as usual, containers abbreviated.
pub open spec fn cycle_repr(p: Payload) -> Seq<char> {
    match p {
        Payload::NoneValue => "None"@,
        Payload::Bool(b) => if b { "True"@ } else { "False"@ },
        Payload::Int(i) => int_text(i as int),
        Payload::Str(s) => "\""@ + s@ + "\""@,
        Payload::List(_) => "[...]"@,
        Payload::Record(_) => "record(...)"@,
        Payload::Tombstone(_) => Seq::empty(),
    }
}

fn push_digit(out: &mut String, d: u64)
    requires
        d < 10,
    ensures
        final(out)@ == old(out)@ + digit_text(d as int),
{
    let t: &str = if d == 0 { "0" } else if d == 1 { "1" } else if d == 2 { "2" } else if d == 3 { "3" }
        else if d == 4 { "4" } else if d == 5 { "5" } else if d == 6 { "6" } else if d == 7 { "7" }
        else if d == 8 { "8" } else { "9" };
    out.append(t);
}

fn push_decimal(out: &mut String, n: u64)
    ensures
        final(out)@ == old(out)@ + decimal(n as nat),
    decreases n,
{
    if n < 10 {
        push_digit(out, n);
    } else {
        let ghost before = out@;
        push_decimal(out, n / 10);
        push_digit(out, n % 10);
        assert(out@ =~= before + (decimal((n / 10) as nat) + digit_text((n % 10) as int)));
    }
}

/// Hash of a byte string (see `str_hash`).
fn hash_bytes(b: &[u8]) -> (r: u32)
    ensures
        r == str_hash(b@),
{
    let mut h: u32 = 0;
    let mut i: usize = 0;
    while i < b.len()
        invariant
            i <= b@.len(),
            h == str_hash(b@.subrange(0, i as int)),
        decreases b@.len() - i,
    {
        assert(b@.subrange(0, i as int + 1).drop_last() =~= b@.subrange(0, i as int));
        h = ((h as u64 * 31 + b[i] as u64) % 0x1_0000_0000) as u32;
        i = i + 1;
    }
    assert(b@.subrange(0, i as int) =~= b@);
    h
}

/// Element-wise equality of two reference sequences.
fn refs_equal(xs: &Vec<Value>, ys: &Vec<Value>) -> (r: bool)
    ensures
        r == (xs@ == ys@),
{
    if xs.len() != ys.len() {
        return false;
    }
    let mut i: usize = 0;
    while i < xs.len()
        invariant
            i <= xs@.len(),
            xs@.len() == ys@.len(),
            forall|k: int| 0 <= k < i ==> xs@[k] == ys@[k],
        decreases xs@.len() - i,
    {
        if xs[i] != ys[i] {
            return false;
        }
        i = i + 1;
    }
    assert(xs@ =~= ys@);
    true
}

/// Field-wise equality of two records: same names and references in order.
fn fields_equal(fs: &Vec<Field>, gs: &Vec<Field>) -> (r: bool)
    ensures
        r == values_equal(Payload::Record(*fs), Payload::Record(*gs)),
{
    if fs.len() != gs.len() {
        return false;
    }
    let mut i: usize = 0;
    while i < fs.len()
        invariant
            i <= fs@.len(),
            fs@.len() == gs@.len(),
            forall|k: int| #![trigger fs@[k]] 0 <= k < i ==> fs@[k].name@ == gs@[k].name@ && fs@[k].value == gs@[k].value,
        decreases fs@.len() - i,
    {
        if !(fs[i].name == gs[i].name) || fs[i].value != gs[i].value {
            return false;
        }
        assert(fs@[i as int].name@ == gs@[i as int].name@ && fs@[i as int].value == gs@[i as int].value);
        i = i + 1;
    }
    true
}

/// The position of the first field named `name`.
pub(crate) fn find_field(fs: &Vec<Field>, name: &str) -> (r: Option<usize>)
    ensures
        r is Some ==> first_field(fs@, name@, r->Some_0 as int),
        r is None ==> forall|k: int| 0 <= k < fs@.len() ==> #[trigger] fs@[k].name@ != name@,
{
    let mut i: usize = 0;
    while i < fs.len()
        invariant
            i <= fs@.len(),
            forall|k: int| 0 <= k < i ==> #[trigger] fs@[k].name@ != name@,
        decreases fs@.len() - i,
    {
        if str_eq(fs[i].name.as_str(), name) {
            return Some(i);
        }
        i = i + 1;
    }
    None
}

/// A type-erased handle: a payload paired with the dispatch table of its
/// concrete type.
#[derive(Clone, Copy, Debug)]
pub struct AValueDyn<'v> {
    pub value: &'v Payload,
    pub vtable: &'v AValueVTable,
}

impl<'v> AValueDyn<'v> {
    /// The table is the one of the payload's type.
    pub open spec fn wf(&self) -> bool {
        &&& self.vtable.wf()
        &&& self.vtable.kind == kind_of(*self.value)
    }

    /// A well-formed handle of a value that has not migrated: every value
    /// operation asks for one, since any operation but a size query on a
    /// tombstone is an internal invariant violation.
    pub open spec fn live(&self) -> bool {
        &&& self.wf()
        &&& !(*self.value is Tombstone)
    }

    /// Pairs a payload with the table of its type.
    pub fn new(value: &'v Payload, tables: &'v VTables) -> (r: AValueDyn<'v>)
        requires
            tables.wf(),
        ensures
            r.wf(),
            r.value == value,
    {
        AValueDyn { value, vtable: tables.of(value) }
    }

    /// The key under which memory accounting reports the value's type.
    pub fn type_as_allocative_key(self) -> (r: &'v allocative::Key)
        requires
            self.live(),
        ensures
            *r == allocative_key_of(type_name_of(kind_of(*self.value))),
    {
        &self.vtable.type_as_allocative_key
    }

    /// Size of the payload in its cell; legal on a tombstone, where it is
    /// the recorded size.
    pub fn memory_size(self) -> (r: usize)
        requires
            fits(*self.value),
        ensures
            r == memory_size(*self.value),
            r % ALIGN == 0,
    {
        self.value.memory_size()
    }

    /// Header, payload and the allocations the payload owns outside the cell.
    pub fn total_memory(self) -> (r: usize)
        requires
            fits(*self.value),
        ensures
            r == total_memory(*self.value),
            r >= HEADER_SIZE,
    {
        HEADER_SIZE + self.value.memory_size() + self.value.extra_memory()
    }

    /// Name of the concrete type.
    pub fn get_type(self) -> (r: &'static str)
        requires
            self.live(),
        ensures
            r@ == type_name_of(kind_of(*self.value)),
    {
        self.vtable.name
    }

    /// Stable identifier of the concrete type.
    pub fn static_type_of_value(self) -> (r: u64)
        requires
            self.live(),
        ensures
            r == self.vtable.static_type_of_value,
    {
        self.vtable.static_type_of_value
    }

    /// Whether the value is a string.
    pub fn is_str(self) -> (r: bool)
        requires
            self.live(),
        ensures
            r == (*self.value is Str),
    {
        self.vtable.is_str
    }

    /// The payload, if the handle's type identifier is `type_id`.
    pub fn downcast_ref(self, type_id: u64) -> (r: Option<&'v Payload>)
        ensures
            r is Some <==> self.vtable.static_type_of_value == type_id,
            self.wf() ==> (r is Some <==> type_id_of(kind_of(*self.value)) == type_id),
            r is Some ==> r->Some_0 == self.value,
    {
        if self.vtable.static_type_of_value == type_id {
            Some(self.value)
        } else {
            None
        }
    }

    /// Whether `t` names the concrete type.
    pub fn matches_type(self, t: &str) -> (r: bool)
        requires
            self.live(),
        ensures
            r == (t@ == type_name_of(kind_of(*self.value))),
    {
        str_eq(self.vtable.name, t)
    }

    /// Truth value of the value.
    pub fn to_bool(self) -> (r: bool)
        requires
            self.live(),
        ensures
            r == truth(*self.value),
    {
        match self.value {
            Payload::NoneValue => false,
            Payload::Bool(b) => *b,
            Payload::Int(i) => *i != 0,
            Payload::Str(s) => !s.as_str().is_empty(),
            Payload::List(xs) => xs.len() > 0,
            Payload::Record(fs) => fs.len() > 0,
            Payload::Tombstone(_) => false,
        }
    }

    /// Integer value of an integer or a boolean.
    pub fn to_int(self) -> (r: Result<i64, ValueError>)
        requires
            self.live(),
        ensures
            r == match *self.value {
                Payload::Int(i) => Ok::<i64, ValueError>(i),
                Payload::Bool(b) => Ok(if b { 1i64 } else { 0i64 }),
                _ => Err(ValueError::Unsupported),
            },
    {
        match self.value {
            Payload::Int(i) => Ok(*i),
            Payload::Bool(b) => Ok(if *b { 1 } else { 0 }),
            _ => Err(ValueError::Unsupported),
        }
    }

    /// Number of elements of a list, or of UTF-8 bytes of a string.
    pub fn length(self) -> (r: Result<usize, ValueError>)
        requires
            self.live(),
        ensures
            r == match *self.value {
                Payload::List(xs) => Ok::<usize, ValueError>(xs@.len() as usize),
                Payload::Str(s) => Ok(str_bytes(s).len() as usize),
                _ => Err(ValueError::Unsupported),
            },
    {
        match self.value {
            Payload::List(xs) => Ok(xs.len()),
            Payload::Str(s) => Ok(s.as_str().len()),
            _ => Err(ValueError::Unsupported),
        }
    }

    /// Runs `f` on the elements of a list, lent for the duration of the
    /// call only; values other than lists are not iterable.
    pub fn with_iterator<R, F: FnOnce(&Vec<Value>) -> R>(self, f: F) -> (r: Result<R, ValueError>)
        requires
            self.live(),
            match *self.value {
                Payload::List(xs) => f.requires((&xs,)),
                _ => true,
            },
        ensures
            match *self.value {
                Payload::List(xs) => r is Ok && f.ensures((&xs,), r->Ok_0),
                _ => r is Err && r->Err_0 == ValueError::Unsupported,
            },
    {
        match self.value {
            Payload::List(xs) => Ok(f(xs)),
            _ => Err(ValueError::Unsupported),
        }
    }

    /// The elements of a list, in order.
    pub fn iterate(self) -> (r: Result<Vec<Value>, ValueError>)
        requires
            self.live(),
        ensures
            match *self.value {
                Payload::List(xs) => r is Ok && r->Ok_0@ == xs@,
                _ => r is Err && r->Err_0 == ValueError::Unsupported,
            },
    {
        match self.value {
            Payload::List(xs) => {
                let mut out: Vec<Value> = Vec::new();
                let mut n: usize = 0;
                while n < xs.len()
                    invariant
                        n <= xs@.len(),
                        out@ == xs@.subrange(0, n as int),
                    decreases xs@.len() - n,
                {
                    out.push(xs[n]);
                    n = n + 1;
                }
                assert(xs@.subrange(0, n as int) =~= xs@);
                Ok(out)
            },
            _ => Err(ValueError::Unsupported),
        }
    }

    /// Element `index` of a list; a negative index counts from the end.
    pub fn at(self, index: i64) -> (r: Result<Value, ValueError>)
        requires
            self.live(),
        ensures
            r == match *self.value {
                Payload::List(xs) => {
                    let k = if index < 0 { xs@.len() + index } else { index as int };
                    if 0 <= k < xs@.len() {
                        Ok::<Value, ValueError>(xs@[k])
                    } else {
                        Err(ValueError::IndexOutOfRange)
                    }
                },
                _ => Err(ValueError::Unsupported),
            },
    {
        match self.value {
            Payload::List(xs) => {
                let len = xs.len();
                if index >= 0 {
                    if (index as u64) < (len as u64) {
                        Ok(xs[index as usize])
                    } else {
                        Err(ValueError::IndexOutOfRange)
                    }
                } else {
                    let back: u64 = (0i128 - index as i128) as u64;
                    if back <= len as u64 {
                        Ok(xs[len - back as usize])
                    } else {
                        Err(ValueError::IndexOutOfRange)
                    }
                }
            },
            _ => Err(ValueError::Unsupported),
        }
    }

    /// Hash of the value; containers are not hashable.
    pub fn get_hash(self) -> (r: Result<u64, ValueError>)
        requires
            self.live(),
        ensures
            match hash_of(*self.value) {
                Some(h) => r == Ok::<u64, ValueError>(h),
                None => r == Err::<u64, ValueError>(ValueError::NotHashable),
            },
    {
        match self.value {
            Payload::NoneValue => Ok(0),
            Payload::Bool(b) => Ok(if *b { 1 } else { 0 }),
            Payload::Int(i) => Ok(*i as u64),
            Payload::Str(s) => Ok(hash_bytes(s.as_str().as_bytes()) as u64),
            _ => Err(ValueError::NotHashable),
        }
    }

    /// Equality with another value.
    pub fn equals(self, other: AValueDyn) -> (r: Result<bool, ValueError>)
        requires
            self.live(),
            other.live(),
        ensures
            r == Ok::<bool, ValueError>(values_equal(*self.value, *other.value)),
    {
        match (self.value, other.value) {
            (Payload::NoneValue, Payload::NoneValue) => Ok(true),
            (Payload::Bool(x), Payload::Bool(y)) => Ok(*x == *y),
            (Payload::Int(x), Payload::Int(y)) => Ok(*x == *y),
            (Payload::Str(x), Payload::Str(y)) => Ok(*x == *y),
            (Payload::List(xs), Payload::List(ys)) => Ok(refs_equal(xs, ys)),
            (Payload::Record(fs), Payload::Record(gs)) => Ok(fields_equal(fs, gs)),
            _ => Ok(false),
        }
    }

    /// Order of the value relative to `other`.
    pub fn compare(self, other: AValueDyn) -> (r: Result<Ordering, ValueError>)
        requires
            self.live(),
            other.live(),
        ensures
            r == compare_of(*self.value, *other.value),
    {
        match (self.value, other.value) {
            (Payload::NoneValue, Payload::NoneValue) => Ok(Ordering::Equal),
            (Payload::Bool(x), Payload::Bool(y)) => Ok(cmp_ints(if *x { 1 } else { 0 }, if *y { 1 } else { 0 })),
            (Payload::Int(x), Payload::Int(y)) => Ok(cmp_ints(*x, *y)),
            (Payload::Str(x), Payload::Str(y)) => Ok(cmp_bytes(x.as_str().as_bytes(), y.as_str().as_bytes())),
            _ => Err(ValueError::Unsupported),
        }
    }

    /// Calls the value with positional arguments `args`; `me` is the value
    /// itself, for identity. No value type of the library is callable.
    pub fn invoke(self, me: Value, args: &Vec<Value>) -> (r: Result<Value, ValueError>)
        requires
            self.live(),
        ensures
            r == Err::<Value, ValueError>(ValueError::Unsupported),
    {
        Err(ValueError::Unsupported)
    }

    /// Calls the value as a method bound to `this`; `me` is the value
    /// itself. No value type of the library is callable.
    pub fn invoke_method(self, me: Value, this: Value, args: &Vec<Value>) -> (r: Result<Value, ValueError>)
        requires
            self.live(),
        ensures
            r == Err::<Value, ValueError>(ValueError::Unsupported),
    {
        Err(ValueError::Unsupported)
    }

    /// Hook run when the value is first bound to the module-level name
    /// `name`. No value type of the library takes a name from it: it
    /// succeeds and changes nothing.
    pub fn export_as(self, name: &str) -> (r: Result<(), ValueError>)
        requires
            self.live(),
        ensures
            r == Ok::<(), ValueError>(()),
    {
        Ok(())
    }

    /// The list slice `[start:stop:step]` (see `slice_of`); a step of 0 and
    /// values other than lists are unsupported.
    pub fn slice(self, start: Option<i64>, stop: Option<i64>, step: Option<i64>) -> (r: Result<Payload, ValueError>)
        requires
            self.live(),
        ensures
            match *self.value {
                Payload::List(xs) => if step == Some(0i64) {
                    r == Err::<Payload, ValueError>(ValueError::Unsupported)
                } else {
                    r is Ok && r->Ok_0 is List && r->Ok_0->List_0@ == slice_of(xs@, start, stop, step)
                },
                _ => r == Err::<Payload, ValueError>(ValueError::Unsupported),
            },
    {
        let xs = match self.value {
            Payload::List(xs) => xs,
            _ => { return Err(ValueError::Unsupported); },
        };
        let st: i128 = match step {
            Some(v) => v as i128,
            None => 1,
        };
        if st == 0 {
            return Err(ValueError::Unsupported);
        }
        let n: i128 = xs.len() as i128;
        let a: i128 = match start {
            Some(v) => clamp_exec(v, n, st),
            None => if st > 0 { 0 } else { n - 1 },
        };
        let b: i128 = match stop {
            Some(v) => clamp_exec(v, n, st),
            None => if st > 0 { n } else { -1 },
        };
        let ghost whole = slice_of(xs@, start, stop, step);
        let mut out: Vec<Value> = Vec::new();
        let mut i: i128 = a;
        assert(whole == out@ + slice_from(xs@, i as int, b as int, st as int));
        while (st > 0 && i < b) || (st < 0 && i > b)
            invariant
                n == xs@.len(),
                0 <= n <= usize::MAX,
                st != 0,
                -(0x1_0000_0000_0000_0000i128) <= st <= 0x1_0000_0000_0000_0000i128,
                -1 <= b <= n,
                st > 0 ==> 0 <= i,
                st < 0 ==> i <= n - 1,
                -1 - 0x1_0000_0000_0000_0000i128 <= i <= n + 0x1_0000_0000_0000_0000i128,
                whole == out@ + slice_from(xs@, i as int, b as int, st as int),
            decreases (if st > 0 { if b > i { b - i } else { 0 } } else { if i > b { i - b } else { 0 } }),
        {
            let ghost rest = slice_from(xs@, i as int + st as int, b as int, st as int);
            assert(slice_from(xs@, i as int, b as int, st as int) == seq![xs@[i as int]] + rest);
            let ghost prev = out@;
            assert(0 <= i < n);
            let idx: usize = i as usize;
            out.push(xs[idx]);
            assert(out@ =~= prev + seq![xs@[i as int]]);
            assert((prev + seq![xs@[i as int]]) + rest =~= prev + (seq![xs@[i as int]] + rest));
            i = i + st;
        }
        assert(out@ =~= whole);
        Ok(Payload::List(out))
    }

    /// Appends the text the value shows when met again inside its own
    /// display (see `cycle_repr`).
    pub fn collect_repr_cycle(self, collector: &mut String)
        requires
            self.live(),
        ensures
            final(collector)@ == old(collector)@ + cycle_repr(*self.value),
    {
        match self.value {
            Payload::NoneValue => collector.append("None"),
            Payload::Bool(b) => if *b { collector.append("True") } else { collector.append("False") },
            Payload::Int(i) => {
                let ghost before = collector@;
                if *i < 0 {
                    collector.append("-");
                    let m: u64 = (0i128 - *i as i128) as u64;
                    push_decimal(collector, m);
                    assert(collector@ =~= before + ("-"@ + decimal(m as nat)));
                } else {
                    push_decimal(collector, *i as u64);
                }
            },
            Payload::Str(s) => {
                let ghost before = collector@;
                collector.append("\"");
                collector.append(s.as_str());
                collector.append("\"");
                assert(collector@ =~= before + ("\""@ + s@ + "\""@));
            },
            Payload::List(_) => collector.append("[...]"),
            Payload::Record(_) => collector.append("record(...)"),
            Payload::Tombstone(_) => {},
        }
    }

    /// Floor division of two integers.
    pub fn floor_div(self, other: AValueDyn) -> (r: Result<Payload, ValueError>)
        requires
            self.live(),
            other.live(),
        ensures
            r == match (*self.value, *other.value) {
                (Payload::Int(x), Payload::Int(y)) => if y == 0 {
                    Err(ValueError::DivisionByZero)
                } else {
                    int_result(floor_div_of(x as int, y as int))
                },
                _ => Err(ValueError::Unsupported),
            },
    {
        match (self.value, other.value) {
            (Payload::Int(x), Payload::Int(y)) => {
                if *y == 0 {
                    return Err(ValueError::DivisionByZero);
                }
                let (a, b): (i128, i128) = if *y > 0 {
                    (*x as i128, *y as i128)
                } else {
                    (0i128 - *x as i128, 0i128 - *y as i128)
                };
                match a.checked_div_euclid(b) {
                    Some(q) => if q < i64::MIN as i128 || q > i64::MAX as i128 {
                        Err(ValueError::Overflow)
                    } else {
                        Ok(Payload::Int(q as i64))
                    },
                    None => Err(ValueError::Overflow),
                }
            },
            _ => Err(ValueError::Unsupported),
        }
    }

    /// Remainder of the floor division of two integers.
    pub fn percent(self, other: AValueDyn) -> (r: Result<Payload, ValueError>)
        requires
            self.live(),
            other.live(),
        ensures
            r == match (*self.value, *other.value) {
                (Payload::Int(x), Payload::Int(y)) => if y == 0 {
                    Err(ValueError::DivisionByZero)
                } else {
                    int_result(floor_mod_of(x as int, y as int))
                },
                _ => Err(ValueError::Unsupported),
            },
    {
        match (self.value, other.value) {
            (Payload::Int(x), Payload::Int(y)) => {
                if *y == 0 {
                    return Err(ValueError::DivisionByZero);
                }
                let (a, b): (i128, i128) = if *y > 0 {
                    (*x as i128, *y as i128)
                } else {
                    (0i128 - *x as i128, 0i128 - *y as i128)
                };
                match a.checked_rem_euclid(b) {
                    Some(m) => {
                        let v: i128 = if *y > 0 { m } else { 0i128 - m };
                        if v < i64::MIN as i128 || v > i64::MAX as i128 {
                            Err(ValueError::Overflow)
                        } else {
                            Ok(Payload::Int(v as i64))
                        }
                    },
                    None => Err(ValueError::Overflow),
                }
            },
            _ => Err(ValueError::Unsupported),
        }
    }

    /// Integer shifted left by `other` bits: multiplied by a power of two.
    /// A negative shift is unsupported.
    pub fn left_shift(self, other: AValueDyn) -> (r: Result<Payload, ValueError>)
        requires
            self.live(),
            other.live(),
        ensures
            r == match (*self.value, *other.value) {
                (Payload::Int(x), Payload::Int(y)) => if y < 0 {
                    Err(ValueError::Unsupported)
                } else {
                    int_result(x as int * pow2(y as nat))
                },
                _ => Err(ValueError::Unsupported),
            },
    {
        match (self.value, other.value) {
            (Payload::Int(x), Payload::Int(y)) => {
                let (x, y) = (*x, *y);
                if y < 0 {
                    return Err(ValueError::Unsupported);
                }
                if x == 0 {
                    assert(0 * pow2(y as nat) == 0);
                    return Ok(Payload::Int(0));
                }
                let mut acc: i64 = x;
                let mut k: i64 = 0;
                while k < y
                    invariant
                        0 <= k <= y,
                        acc as int == x as int * pow2(k as nat),
                        *self.value == Payload::Int(x),
                        *other.value == Payload::Int(y),
                    decreases y - k,
                {
                    proof {
                        assert(pow2((k + 1) as nat) == 2 * pow2(k as nat));
                        assert(x as int * (2 * pow2(k as nat)) == 2 * (x as int * pow2(k as nat))) by (nonlinear_arith);
                    }
                    match acc.checked_mul(2) {
                        Some(v) => { acc = v; },
                        None => {
                            proof {
                                let m = (y - k - 1) as nat;
                                lemma_pow2_split((k + 1) as nat, m);
                                assert(((k + 1) as nat + m) as nat == y as nat);
                                let a = 2 * (acc as int);
                                let pm = pow2(m);
                                assert(x as int * pow2(y as nat) == a * pm) by (nonlinear_arith)
                                    requires
                                        pow2(y as nat) == pow2((k + 1) as nat) * pm,
                                        a == x as int * pow2((k + 1) as nat);
                                assert(a > i64::MAX ==> a * pm > i64::MAX) by (nonlinear_arith)
                                    requires pm >= 1;
                                assert(a < i64::MIN ==> a * pm < i64::MIN) by (nonlinear_arith)
                                    requires pm >= 1;
                            }
                            return Err(ValueError::Overflow);
                        },
                    }
                    k = k + 1;
                }
                Ok(Payload::Int(acc))
            },
            _ => Err(ValueError::Unsupported),
        }
    }

    /// Integer shifted right by `other` bits, rounding toward negative
    /// infinity. A negative shift is unsupported.
    pub fn right_shift(self, other: AValueDyn) -> (r: Result<Payload, ValueError>)
        requires
            self.live(),
            other.live(),
        ensures
            r == match (*self.value, *other.value) {
                (Payload::Int(x), Payload::Int(y)) => if y < 0 {
                    Err(ValueError::Unsupported)
                } else {
                    int_result(halved(x as int, y as nat))
                },
                _ => Err(ValueError::Unsupported),
            },
    {
        match (self.value, other.value) {
            (Payload::Int(x), Payload::Int(y)) => {
                let (x, y) = (*x, *y);
                if y < 0 {
                    return Err(ValueError::Unsupported);
                }
                let mut acc: i64 = x;
                let mut k: i64 = 0;
                while k < y && acc != 0 && acc != -1
                    invariant
                        0 <= k <= y,
                        halved(acc as int, (y - k) as nat) == halved(x as int, y as nat),
                        *self.value == Payload::Int(x),
                        *other.value == Payload::Int(y),
                    decreases y - k,
                {
                    assert(halved(acc as int, (y - k) as nat) == halved(acc as int / 2, (y - k - 1) as nat));
                    acc = match acc.checked_div_euclid(2) {
                        Some(v) => v,
                        None => acc,
                    };
                    k = k + 1;
                }
                proof {
                    if k < y {
                        lemma_halved_fixed(acc as int, (y - k) as nat);
                    }
                }
                Ok(Payload::Int(acc))
            },
            _ => Err(ValueError::Unsupported),
        }
    }

    /// Sum of two integers, or concatenation of two strings.
    pub fn add(self, other: AValueDyn) -> (r: Result<Payload, ValueError>)
        requires
            self.live(),
            other.live(),
        ensures
            match (*self.value, *other.value) {
                (Payload::Int(x), Payload::Int(y)) => r == int_result(x + y),
                (Payload::Str(x), Payload::Str(y)) => r is Ok && r->Ok_0 is Str
                    && r->Ok_0->Str_0@ == x@ + y@,
                (a, b) => r == Err::<Payload, ValueError>(ValueError::Unsupported),
            },
    {
        match (self.value, other.value) {
            (Payload::Int(x), Payload::Int(y)) => checked(x.checked_add(*y)),
            (Payload::Str(x), Payload::Str(y)) => Ok(Payload::Str(String::from_str(x.as_str()).concat(y.as_str()))),
            _ => Err(ValueError::Unsupported),
        }
    }

    /// Difference of two integers.
    pub fn sub(self, other: AValueDyn) -> (r: Result<Payload, ValueError>)
        requires
            self.live(),
            other.live(),
        ensures
            r == match (*self.value, *other.value) {
                (Payload::Int(x), Payload::Int(y)) => int_result(x - y),
                (a, b) => Err(ValueError::Unsupported),
            },
    {
        match (self.value, other.value) {
            (Payload::Int(x), Payload::Int(y)) => checked(x.checked_sub(*y)),
            _ => Err(ValueError::Unsupported),
        }
    }

    /// Product of two integers.
    pub fn mul(self, other: AValueDyn) -> (r: Result<Payload, ValueError>)
        requires
            self.live(),
            other.live(),
        ensures
            r == match (*self.value, *other.value) {
                (Payload::Int(x), Payload::Int(y)) => int_result(x * y),
                (a, b) => Err(ValueError::Unsupported),
            },
    {
        match (self.value, other.value) {
            (Payload::Int(x), Payload::Int(y)) => checked(x.checked_mul(*y)),
            _ => Err(ValueError::Unsupported),
        }
    }

    /// Bitwise and of two integers.
    pub fn bit_and(self, other: AValueDyn) -> (r: Result<Payload, ValueError>)
        requires
            self.live(),
            other.live(),
        ensures
            r == match (*self.value, *other.value) {
                (Payload::Int(x), Payload::Int(y)) => int_result((x & y) as int),
                (a, b) => Err(ValueError::Unsupported),
            },
    {
        match (self.value, other.value) {
            (Payload::Int(x), Payload::Int(y)) => Ok(Payload::Int(*x & *y)),
            _ => Err(ValueError::Unsupported),
        }
    }

    /// Bitwise or of two integers.
    pub fn bit_or(self, other: AValueDyn) -> (r: Result<Payload, ValueError>)
        requires
            self.live(),
            other.live(),
        ensures
            r == match (*self.value, *other.value) {
                (Payload::Int(x), Payload::Int(y)) => int_result((x | y) as int),
                (a, b) => Err(ValueError::Unsupported),
            },
    {
        match (self.value, other.value) {
            (Payload::Int(x), Payload::Int(y)) => Ok(Payload::Int(*x | *y)),
            _ => Err(ValueError::Unsupported),
        }
    }

    /// Bitwise exclusive or of two integers.
    pub fn bit_xor(self, other: AValueDyn) -> (r: Result<Payload, ValueError>)
        requires
            self.live(),
            other.live(),
        ensures
            r == match (*self.value, *other.value) {
                (Payload::Int(x), Payload::Int(y)) => int_result((x ^ y) as int),
                (a, b) => Err(ValueError::Unsupported),
            },
    {
        match (self.value, other.value) {
            (Payload::Int(x), Payload::Int(y)) => Ok(Payload::Int(*x ^ *y)),
            _ => Err(ValueError::Unsupported),
        }
    }

    /// Unary plus: an integer unchanged.
    pub fn plus(self) -> (r: Result<Payload, ValueError>)
        requires
            self.live(),
        ensures
            r == match *self.value {
                Payload::Int(x) => Ok::<Payload, ValueError>(Payload::Int(x)),
                _ => Err(ValueError::Unsupported),
            },
    {
        match self.value {
            Payload::Int(x) => Ok(Payload::Int(*x)),
            _ => Err(ValueError::Unsupported),
        }
    }

    /// Negation of an integer.
    pub fn minus(self) -> (r: Result<Payload, ValueError>)
        requires
            self.live(),
        ensures
            r == match *self.value {
                Payload::Int(x) => int_result(-x),
                _ => Err(ValueError::Unsupported),
            },
    {
        match self.value {
            Payload::Int(x) => checked(0i64.checked_sub(*x)),
            _ => Err(ValueError::Unsupported),
        }
    }

    /// Bitwise complement of an integer.
    pub fn bit_not(self) -> (r: Result<Payload, ValueError>)
        requires
            self.live(),
        ensures
            r == match *self.value {
                Payload::Int(x) => Ok::<Payload, ValueError>(Payload::Int(!x)),
                _ => Err(ValueError::Unsupported),
            },
    {
        match self.value {
            Payload::Int(x) => Ok(Payload::Int(!*x)),
            _ => Err(ValueError::Unsupported),
        }
    }

    /// The value of attribute `name`, whose string hash is given: the same
    /// lookup as `get_attr`, for callers that hashed the name already.
    pub fn get_attr_hashed(self, name: &str, hash: u32) -> (r: Option<Value>)
        requires
            self.live(),
            hash == str_hash(encode_utf8(name@)),
        ensures
            match *self.value {
                Payload::Record(fs) => match r {
                    Some(v) => exists|i: int| first_field(fs@, name@, i) && fs@[i].value == v,
                    None => forall|k: int| 0 <= k < fs@.len() ==> #[trigger] fs@[k].name@ != name@,
                },
                _ => r == None::<Value>,
            },
    {
        self.get_attr(name)
    }

    /// `other + self`, for when the left operand does not support the
    /// sum: integers add, strings concatenate in that order.
    pub fn radd(self, other: AValueDyn) -> (r: Result<Payload, ValueError>)
        requires
            self.live(),
            other.live(),
        ensures
            match (*other.value, *self.value) {
                (Payload::Int(x), Payload::Int(y)) => r == int_result(x + y),
                (Payload::Str(x), Payload::Str(y)) => r is Ok && r->Ok_0 is Str
                    && r->Ok_0->Str_0@ == x@ + y@,
                _ => r == Err::<Payload, ValueError>(ValueError::Unsupported),
            },
    {
        other.add(self)
    }

    /// Feeds the value's hash into a running hash state (see `mix`);
    /// containers are not hashable and leave the state as it was.
    pub fn write_hash(self, state: &mut u64) -> (r: Result<(), ValueError>)
        requires
            self.live(),
        ensures
            match hash_of(*self.value) {
                Some(h) => r == Ok::<(), ValueError>(()) && *final(state) == mix(*old(state), h),
                None => r == Err::<(), ValueError>(ValueError::NotHashable) && *final(state) == *old(state),
            },
    {
        match self.get_hash() {
            Ok(h) => {
                *state = (((*state as u128) * 31 + h as u128) % 0x1_0000_0000_0000_0000) as u64;
                Ok(())
            },
            Err(e) => Err(e),
        }
    }

    /// The name under which the value appears in a call stack. No value type
    /// of the library is callable, so it is the value's abbreviated display
    /// (see `cycle_repr`).
    pub fn name_for_call_stack(self) -> (r: String)
        requires
            self.live(),
        ensures
            r@ == cycle_repr(*self.value),
    {
        let mut out = String::new();
        self.collect_repr_cycle(&mut out);
        proof {
            assert(out@ =~= Seq::<char>::empty() + cycle_repr(*self.value));
        }
        out
    }

    /// The value of attribute `name`: the first record field of that name.
    pub fn get_attr(self, name: &str) -> (r: Option<Value>)
        requires
            self.live(),
        ensures
            match *self.value {
                Payload::Record(fs) => match r {
                    Some(v) => exists|i: int| first_field(fs@, name@, i) && fs@[i].value == v,
                    None => forall|k: int| 0 <= k < fs@.len() ==> #[trigger] fs@[k].name@ != name@,
                },
                _ => r == None::<Value>,
            },
    {
        match self.value {
            Payload::Record(fs) => match find_field(fs, name) {
                Some(i) => Some(fs[i].value),
                None => None,
            },
            _ => None,
        }
    }

    /// Whether the value has attribute `name`.
    pub fn has_attr(self, name: &str) -> (r: bool)
        requires
            self.live(),
        ensures
            match *self.value {
                Payload::Record(fs) => r == exists|k: int| 0 <= k < fs@.len() && #[trigger] fs@[k].name@ == name@,
                _ => r == false,
            },
    {
        match self.value {
            Payload::Record(fs) => {
                let found = find_field(fs, name);
                if let Some(i) = found {
                    assert(fs@[i as int].name@ == name@);
                }
                found.is_some()
            },
            _ => false,
        }
    }

    /// Names of the attributes, in field order.
    pub fn dir_attr(self) -> (r: Vec<String>)
        requires
            self.live(),
        ensures
            match *self.value {
                Payload::Record(fs) => r@.len() == fs@.len() && forall|k: int|
                    0 <= k < fs@.len() ==> #[trigger] r@[k]@ == fs@[k].name@,
                _ => r@.len() == 0,
            },
    {
        match self.value {
            Payload::Record(fs) => {
                let mut names: Vec<String> = Vec::new();
                let mut i: usize = 0;
                while i < fs.len()
                    invariant
                        i <= fs@.len(),
                        names@.len() == i,
                        forall|k: int| 0 <= k < i ==> #[trigger] names@[k]@ == fs@[k].name@,
                    decreases fs@.len() - i,
                {
                    names.push(fs[i].name.clone());
                    i = i + 1;
                }
                names
            },
            _ => Vec::new(),
        }
    }
}

} // verus!
