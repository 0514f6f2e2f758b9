//! Values of a fixed size and layout, as the bytes that another process holds
//! for them.
//!
//! The layout of a value in the other process is the authority: a value is
//! written as exactly `width()` bytes and read back from as many. Numbers are
//! little-endian, signed ones in two's complement.

use crate::codec::{
    decode, encode, le_bytes, le_value, lemma_le_bytes_len, lemma_le_bytes_of_value,
    lemma_le_value_bound, lemma_le_value_of_bytes, lemma_span_values, span,
};
use vstd::layout::*;
use vstd::prelude::*;

verus! {

/// A value with a fixed layout in memory.
pub trait FixedLayout: Sized {
    /// The number of bytes that a value takes.
    spec fn width() -> nat;

    /// The bytes that stand for the value.
    spec fn image(&self) -> Seq<u8>;

    /// The value that `bytes` stand for.
    spec fn from_image(bytes: Seq<u8>) -> Self;

    /// A value has `width()` bytes, and they stand for it.
    proof fn lemma_image(v: &Self)
        ensures
            v.image().len() == Self::width(),
            Self::from_image(v.image()) == *v,
    ;

    /// As many bytes as a value takes stand for a value, and they are its
    /// bytes.
    proof fn lemma_from_image(bytes: Seq<u8>)
        requires
            bytes.len() == Self::width(),
        ensures
            Self::from_image(bytes).image() == bytes,
    ;

    /// The number of bytes that a value takes.
    fn size() -> (n: usize)
        ensures
            n == Self::width(),
    ;

    /// The bytes that stand for the value.
    fn to_bytes(&self) -> (bytes: Vec<u8>)
        ensures
            bytes@ == self.image(),
    ;

    /// The value that `bytes` stand for.
    fn from_bytes(bytes: &[u8]) -> (v: Self)
        requires
            bytes@.len() == Self::width(),
        ensures
            v == Self::from_image(bytes@),
    ;
}

impl FixedLayout for u8 {
    open spec fn width() -> nat {
        1
    }

    open spec fn image(&self) -> Seq<u8> {
        le_bytes(*self as nat, 1)
    }

    open spec fn from_image(bytes: Seq<u8>) -> u8 {
        le_value(bytes) as u8
    }

    proof fn lemma_image(v: &u8) {
        lemma_span_values();
        lemma_le_bytes_len(*v as nat, 1);
        lemma_le_value_of_bytes(*v as nat, 1);
    }

    proof fn lemma_from_image(bytes: Seq<u8>) {
        lemma_span_values();
        lemma_le_value_bound(bytes);
        lemma_le_bytes_of_value(bytes);
    }

    fn size() -> (n: usize) {
        1
    }

    fn to_bytes(&self) -> (bytes: Vec<u8>) {
        encode(*self as u64, 1)
    }

    fn from_bytes(bytes: &[u8]) -> (v: u8) {
        proof {
            lemma_span_values();
            lemma_le_value_bound(bytes@);
        }
        decode(bytes) as u8
    }
}

impl FixedLayout for u16 {
    open spec fn width() -> nat {
        2
    }

    open spec fn image(&self) -> Seq<u8> {
        le_bytes(*self as nat, 2)
    }

    open spec fn from_image(bytes: Seq<u8>) -> u16 {
        le_value(bytes) as u16
    }

    proof fn lemma_image(v: &u16) {
        lemma_span_values();
        lemma_le_bytes_len(*v as nat, 2);
        lemma_le_value_of_bytes(*v as nat, 2);
    }

    proof fn lemma_from_image(bytes: Seq<u8>) {
        lemma_span_values();
        lemma_le_value_bound(bytes);
        lemma_le_bytes_of_value(bytes);
    }

    fn size() -> (n: usize) {
        2
    }

    fn to_bytes(&self) -> (bytes: Vec<u8>) {
        encode(*self as u64, 2)
    }

    fn from_bytes(bytes: &[u8]) -> (v: u16) {
        proof {
            lemma_span_values();
            lemma_le_value_bound(bytes@);
        }
        decode(bytes) as u16
    }
}

impl FixedLayout for u32 {
    open spec fn width() -> nat {
        4
    }

    open spec fn image(&self) -> Seq<u8> {
        le_bytes(*self as nat, 4)
    }

    open spec fn from_image(bytes: Seq<u8>) -> u32 {
        le_value(bytes) as u32
    }

    proof fn lemma_image(v: &u32) {
        lemma_span_values();
        lemma_le_bytes_len(*v as nat, 4);
        lemma_le_value_of_bytes(*v as nat, 4);
    }

    proof fn lemma_from_image(bytes: Seq<u8>) {
        lemma_span_values();
        lemma_le_value_bound(bytes);
        lemma_le_bytes_of_value(bytes);
    }

    fn size() -> (n: usize) {
        4
    }

    fn to_bytes(&self) -> (bytes: Vec<u8>) {
        encode(*self as u64, 4)
    }

    fn from_bytes(bytes: &[u8]) -> (v: u32) {
        proof {
            lemma_span_values();
            lemma_le_value_bound(bytes@);
        }
        decode(bytes) as u32
    }
}

impl FixedLayout for u64 {
    open spec fn width() -> nat {
        8
    }

    open spec fn image(&self) -> Seq<u8> {
        le_bytes(*self as nat, 8)
    }

    open spec fn from_image(bytes: Seq<u8>) -> u64 {
        le_value(bytes) as u64
    }

    proof fn lemma_image(v: &u64) {
        lemma_span_values();
        lemma_le_bytes_len(*v as nat, 8);
        lemma_le_value_of_bytes(*v as nat, 8);
    }

    proof fn lemma_from_image(bytes: Seq<u8>) {
        lemma_span_values();
        lemma_le_value_bound(bytes);
        lemma_le_bytes_of_value(bytes);
    }

    fn size() -> (n: usize) {
        8
    }

    fn to_bytes(&self) -> (bytes: Vec<u8>) {
        encode(*self, 8)
    }

    fn from_bytes(bytes: &[u8]) -> (v: u64) {
        decode(bytes)
    }
}

/// The number of bytes of an address: four or eight, as the machine has it.
pub open spec fn word_width() -> nat {
    size_of::<usize>()
}

/// An address takes four or eight bytes, and they span all addresses.
pub proof fn lemma_word_width()
    ensures
        word_width() == 4 || word_width() == 8,
        span(word_width()) == usize::MAX + 1,
{
    broadcast use layout_of_primitives;

    lemma_span_values();
    assert(usize::BITS == 32 || usize::BITS == 64);
}

impl FixedLayout for usize {
    open spec fn width() -> nat {
        word_width()
    }

    open spec fn image(&self) -> Seq<u8> {
        le_bytes(*self as nat, word_width())
    }

    open spec fn from_image(bytes: Seq<u8>) -> usize {
        le_value(bytes) as usize
    }

    proof fn lemma_image(v: &usize) {
        lemma_word_width();
        lemma_le_bytes_len(*v as nat, word_width());
        lemma_le_value_of_bytes(*v as nat, word_width());
    }

    proof fn lemma_from_image(bytes: Seq<u8>) {
        lemma_word_width();
        lemma_le_value_bound(bytes);
        lemma_le_bytes_of_value(bytes);
    }

    fn size() -> (n: usize) {
        core::mem::size_of::<usize>()
    }

    fn to_bytes(&self) -> (bytes: Vec<u8>) {
        encode(*self as u64, core::mem::size_of::<usize>())
    }

    fn from_bytes(bytes: &[u8]) -> (v: usize) {
        proof {
            lemma_word_width();
            lemma_le_value_bound(bytes@);
        }
        decode(bytes) as usize
    }
}

/// The unsigned number with the bits of `v` in two's complement.
pub open spec fn twos_complement(v: i32) -> nat {
    if v >= 0 {
        v as nat
    } else {
        (v + 0x1_0000_0000) as nat
    }
}

/// The signed number whose two's complement `x` is.
pub open spec fn from_twos_complement(x: nat) -> i32 {
    if x < 0x8000_0000 {
        x as i32
    } else {
        (x - 0x1_0000_0000) as i32
    }
}

impl FixedLayout for i32 {
    open spec fn width() -> nat {
        4
    }

    open spec fn image(&self) -> Seq<u8> {
        le_bytes(twos_complement(*self), 4)
    }

    open spec fn from_image(bytes: Seq<u8>) -> i32 {
        from_twos_complement(le_value(bytes))
    }

    proof fn lemma_image(v: &i32) {
        lemma_span_values();
        lemma_le_bytes_len(twos_complement(*v), 4);
        lemma_le_value_of_bytes(twos_complement(*v), 4);
    }

    proof fn lemma_from_image(bytes: Seq<u8>) {
        lemma_span_values();
        lemma_le_value_bound(bytes);
        lemma_le_bytes_of_value(bytes);
    }

    fn size() -> (n: usize) {
        4
    }

    fn to_bytes(&self) -> (bytes: Vec<u8>) {
        let v: i32 = *self;
        let x: u64 = if v >= 0 {
            v as u64
        } else {
            (v as i64 + 0x1_0000_0000) as u64
        };
        encode(x, 4)
    }

    fn from_bytes(bytes: &[u8]) -> (v: i32) {
        proof {
            lemma_span_values();
            lemma_le_value_bound(bytes@);
        }
        let x: u64 = decode(bytes);
        if x < 0x8000_0000 {
            x as i32
        } else {
            (x as i64 - 0x1_0000_0000) as i32
        }
    }
}

/// The bytes of a row of values that lie one behind the other.
pub open spec fn image_of_row<T: FixedLayout>(row: Seq<T>) -> Seq<u8>
    decreases row.len(),
{
    if row.len() == 0 {
        Seq::<u8>::empty()
    } else {
        row[0].image() + image_of_row(row.skip(1))
    }
}

/// The row of `n` values that `bytes` stand for.
pub open spec fn row_of_image<T: FixedLayout>(bytes: Seq<u8>, n: nat) -> Seq<T>
    decreases n,
{
    if n == 0 {
        Seq::<T>::empty()
    } else {
        seq![T::from_image(bytes.take(T::width() as int))] + row_of_image(
            bytes.skip(T::width() as int),
            (n - 1) as nat,
        )
    }
}

/// A row takes the bytes of its values, and they stand for it.
pub proof fn lemma_image_of_row<T: FixedLayout>(row: Seq<T>)
    ensures
        image_of_row(row).len() == row.len() * T::width(),
        row_of_image::<T>(image_of_row(row), row.len()) == row,
    decreases row.len(),
{
    if row.len() > 0 {
        let first = row[0].image();
        let rest = image_of_row(row.skip(1));
        T::lemma_image(&row[0]);
        lemma_image_of_row(row.skip(1));
        assert((first + rest).take(T::width() as int) =~= first);
        assert((first + rest).skip(T::width() as int) =~= rest);
        assert(row.len() * T::width() == (row.len() - 1) * T::width() + T::width())
            by (nonlinear_arith);
        assert(seq![row[0]] + row.skip(1) =~= row);
    } else {
        assert(row.len() * T::width() == 0) by (nonlinear_arith)
            requires
                row.len() == 0,
        ;
        assert(row =~= Seq::<T>::empty());
    }
}

/// As many bytes as a row of `n` values takes stand for such a row, and they
/// are its bytes.
pub proof fn lemma_row_of_image<T: FixedLayout>(bytes: Seq<u8>, n: nat)
    requires
        bytes.len() == n * T::width(),
    ensures
        image_of_row(row_of_image::<T>(bytes, n)) == bytes,
    decreases n,
{
    let width = T::width() as int;
    if n > 0 {
        assert(n * T::width() == (n - 1) * T::width() + T::width()) by (nonlinear_arith)
            requires
                n > 0,
        ;
        let first = bytes.take(width);
        let rest = bytes.skip(width);
        let row = row_of_image::<T>(bytes, n);
        T::lemma_from_image(first);
        lemma_row_of_image::<T>(rest, (n - 1) as nat);
        assert(row.skip(1) =~= row_of_image::<T>(rest, (n - 1) as nat));
        assert(first + rest =~= bytes);
    } else {
        assert(n * T::width() == 0) by (nonlinear_arith)
            requires
                n == 0,
        ;
        assert(bytes =~= Seq::<u8>::empty());
    }
}

/// A row of `n` values has `n` entries.
pub proof fn lemma_row_len<T: FixedLayout>(bytes: Seq<u8>, n: nat)
    ensures
        row_of_image::<T>(bytes, n).len() == n,
    decreases n,
{
    if n > 0 {
        lemma_row_len::<T>(bytes.skip(T::width() as int), (n - 1) as nat);
    }
}

/// The bytes of a row of values.
pub fn row_to_bytes<T: FixedLayout>(row: &[T]) -> (bytes: Vec<u8>)
    ensures
        bytes@ == image_of_row(row@),
{
    let mut bytes: Vec<u8> = Vec::new();
    let mut i: usize = 0;
    proof {
        assert(row@.skip(0) =~= row@);
        assert(bytes@ + image_of_row(row@) =~= image_of_row(row@));
    }
    while i < row.len()
        invariant
            i <= row@.len(),
            bytes@ + image_of_row(row@.skip(i as int)) == image_of_row(row@),
        decreases row@.len() - i,
    {
        let ghost before = bytes@;
        let mut next = row[i].to_bytes();
        proof {
            let tail = image_of_row(row@.skip(i as int + 1));
            assert(row@.skip(i as int).skip(1) =~= row@.skip(i as int + 1));
            assert(before + (next@ + tail) =~= (before + next@) + tail);
        }
        bytes.append(&mut next);
        i = i + 1;
    }
    assert(bytes@ + Seq::<u8>::empty() =~= bytes@);
    bytes
}

/// The row of `n` values that `bytes` stand for.
pub fn row_from_bytes<T: FixedLayout>(bytes: &[u8], n: usize) -> (row: Vec<T>)
    requires
        bytes@.len() == n * T::width(),
    ensures
        row@ == row_of_image::<T>(bytes@, n as nat),
{
    let width: usize = T::size();
    let total: usize = bytes.len();
    let mut row: Vec<T> = Vec::new();
    let mut at: usize = 0;
    let mut i: usize = 0;
    proof {
        assert(bytes@.skip(0) =~= bytes@);
        assert(0 * T::width() == 0) by (nonlinear_arith);
    }
    while i < n
        invariant
            i <= n,
            width == T::width(),
            at == i * T::width(),
            bytes@.len() == n * T::width(),
            bytes@.len() == total,
            row@ + row_of_image::<T>(bytes@.skip(at as int), (n - i) as nat) == row_of_image::<T>(
                bytes@,
                n as nat,
            ),
        decreases n - i,
    {
        proof {
            assert((i + 1) * T::width() == i * T::width() + T::width()) by (nonlinear_arith);
            assert((i + 1) * T::width() <= n * T::width()) by (nonlinear_arith)
                requires
                    i + 1 <= n,
            ;
        }
        let ghost before = row@;
        let piece = vstd::slice::slice_subrange(bytes, at, at + width);
        let value = T::from_bytes(piece);
        proof {
            let here = bytes@.skip(at as int);
            let tail = row_of_image::<T>(here.skip(width as int), (n - i - 1) as nat);
            assert(here.take(width as int) =~= piece@);
            assert(here.skip(width as int) =~= bytes@.skip(at + width));
            assert(before + (seq![value] + tail) =~= before.push(value) + tail);
        }
        row.push(value);
        at = at + width;
        i = i + 1;
    }
    assert(row@ + Seq::<T>::empty() =~= row@);
    row
}

impl FixedLayout for [u32; 3] {
    open spec fn width() -> nat {
        12
    }

    open spec fn image(&self) -> Seq<u8> {
        image_of_row(self@)
    }

    open spec fn from_image(bytes: Seq<u8>) -> [u32; 3] {
        let row = row_of_image::<u32>(bytes, 3);
        [row[0], row[1], row[2]]
    }

    proof fn lemma_image(v: &[u32; 3]) {
        broadcast use vstd::array::group_array_axioms;

        lemma_image_of_row(v@);
        assert(<u32 as FixedLayout>::width() == 4);
        assert(v@.len() == 3);
        let back = Self::from_image(v.image());
        assert(back[0] == v[0] && back[1] == v[1] && back[2] == v[2]);
        assert(back =~= *v);
    }

    proof fn lemma_from_image(bytes: Seq<u8>) {
        broadcast use vstd::array::group_array_axioms;

        lemma_row_of_image::<u32>(bytes, 3);
        lemma_row_len::<u32>(bytes, 3);
        let row = row_of_image::<u32>(bytes, 3);
        assert(Self::from_image(bytes)@ =~= row);
    }

    fn size() -> (n: usize) {
        12
    }

    fn to_bytes(&self) -> (bytes: Vec<u8>) {
        row_to_bytes(self.as_slice())
    }

    fn from_bytes(bytes: &[u8]) -> (v: [u32; 3]) {
        let row = row_from_bytes::<u32>(bytes, 3);
        proof {
            lemma_row_len::<u32>(bytes@, 3);
        }
        [row[0], row[1], row[2]]
    }
}

} // verus!
