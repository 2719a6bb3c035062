//! Values as a shader reads them: the layout of a type in a storage buffer,
//! and the bytes of a slice of values laid out one after the other.
use crate::networking::{lemma_pow256_values, pow256};
use std::borrow::Cow;
use vstd::arithmetic::div_mod::{lemma_fundamental_div_mod, lemma_mod_multiples_basic};
use vstd::prelude::*;
use vstd::slice::slice_subrange;

verus! {

/// The `width` low-order base-256 digits of `value`, least significant first.
pub open spec fn le_bytes(value: nat, width: nat) -> Seq<u8>
    decreases width,
{
    if width == 0 {
        Seq::empty()
    } else {
        seq![(value % 256) as u8] + le_bytes(value / 256, (width - 1) as nat)
    }
}

/// The number that `bytes` spell in base 256, least significant digit first.
pub open spec fn le_value(bytes: Seq<u8>) -> nat
    decreases bytes.len(),
{
    if bytes.len() == 0 {
        0
    } else {
        bytes[0] as nat + 256 * le_value(bytes.skip(1))
    }
}

/// The distance between the starts of two neighbours in an array of values of
/// `size` bytes that are aligned to `align` bytes: the least multiple of
/// `align` that is not below `size`, for an `align` of at least one.
pub open spec fn stride_of(size: nat, align: nat) -> nat {
    if size % align == 0 {
        size
    } else {
        (size + align - size % align) as nat
    }
}

/// `stride_of(size, align)` is a multiple of `align`, and the first one from
/// `size` upwards.
pub proof fn lemma_stride_of(size: nat, align: nat)
    requires
        align > 0,
    ensures
        stride_of(size, align) % align == 0,
        size <= stride_of(size, align) < size + align,
{
    let rest = size % align;
    lemma_fundamental_div_mod(size as int, align as int);
    if rest != 0 {
        let quotient = size as int / align as int;
        assert(size + align - rest == align * (quotient + 1)) by (nonlinear_arith)
            requires
                size == align * quotient + rest,
        ;
        lemma_mod_multiples_basic(quotient + 1, align as int);
        assert(align * (quotient + 1) == (quotient + 1) * align) by (nonlinear_arith);
    }
}

/// The least multiple of `align` that is not below `size`.
fn next_multiple_of(size: usize, align: usize) -> (stride: usize)
    requires
        align > 0,
        size + align <= usize::MAX,
    ensures
        stride == stride_of(size as nat, align as nat),
{
    let rest = size % align;
    if rest == 0 {
        size
    } else {
        size + (align - rest)
    }
}

/// `bytes`, filled up with zeros to `stride` bytes.
pub open spec fn padded(bytes: Seq<u8>, stride: nat) -> Seq<u8> {
    bytes + Seq::new((stride - bytes.len()) as nat, |i: int| 0u8)
}

/// The size and the alignment of a type in a shader's memory. Both are fixed
/// by the type alone.
pub trait ShaderBytesInfo {
    /// The number of bytes that a value takes.
    spec fn size_spec() -> usize;

    /// The number of bytes to whose multiples a value is aligned.
    spec fn align_spec() -> usize;

    fn shader_bytes_size() -> (size: usize)
        ensures
            size == Self::size_spec(),
    ;

    fn shader_bytes_align() -> (align: usize)
        ensures
            align == Self::align_spec(),
    ;
}

/// A type whose values can be written as a shader reads them.
pub trait IntoShaderBytes: ShaderBytesInfo {
    /// The bytes of the value in the shader's memory layout,
    /// `shader_bytes_size()` of them.
    spec fn shader_bytes(&self) -> Seq<u8>;

    /// Writes the value to the front of `res`, which is long enough for it,
    /// and leaves the rest of `res` as it was.
    fn to_shader_bytes(&self, res: &mut [u8])
        requires
            old(res)@.len() >= Self::size_spec(),
        ensures
            final(res)@.len() == old(res)@.len(),
            final(res)@.take(Self::size_spec() as int) == self.shader_bytes(),
            final(res)@.skip(Self::size_spec() as int) == old(res)@.skip(Self::size_spec() as int),
    ;
}

impl ShaderBytesInfo for u32 {
    open spec fn size_spec() -> usize {
        4
    }

    open spec fn align_spec() -> usize {
        4
    }

    fn shader_bytes_size() -> (size: usize) {
        4
    }

    fn shader_bytes_align() -> (align: usize) {
        4
    }
}

/// Writes `value` to the first four bytes of `res`, least significant byte
/// first.
fn write_le(value: u32, res: &mut [u8])
    requires
        old(res)@.len() >= 4,
    ensures
        final(res)@.len() == old(res)@.len(),
        final(res)@.take(4) == le_bytes(value as nat, 4),
        final(res)@.skip(4) == old(res)@.skip(4),
{
    let mut left: u32 = value;
    let mut i: usize = 0;
    while i < 4
        invariant
            i <= 4,
            res@.len() == old(res)@.len(),
            res@.len() >= 4,
            res@.skip(4) == old(res)@.skip(4),
            res@.take(i as int) + le_bytes(left as nat, (4 - i) as nat) == le_bytes(value as nat, 4),
        decreases 4 - i,
    {
        let ghost before = res@;
        res[i] = (left % 256) as u8;
        proof {
            assert(res@.skip(4) =~= before.skip(4));
            assert(res@.take(i + 1) =~= before.take(i as int).push((left % 256) as u8));
            assert(before.take(i as int) + le_bytes(left as nat, (4 - i) as nat) =~= res@.take(
                i + 1,
            ) + le_bytes((left / 256) as nat, (4 - i - 1) as nat));
        }
        left = left / 256;
        i = i + 1;
    }
    assert(res@.take(4) + le_bytes(left as nat, 0) =~= res@.take(4));
}

impl IntoShaderBytes for u32 {
    open spec fn shader_bytes(&self) -> Seq<u8> {
        le_bytes(*self as nat, 4)
    }

    fn to_shader_bytes(&self, res: &mut [u8]) {
        write_le(*self, res);
    }
}

/// A type whose values can be read from what a shader wrote.
pub trait FromShaderBytes: ShaderBytesInfo + Sized {
    /// The value that `buf` holds at its front.
    spec fn from_bytes_spec(buf: Seq<u8>) -> Self;

    /// Reads a value from `buf`, which is one array element long.
    fn from_shader_bytes(buf: &[u8]) -> (value: Self)
        requires
            buf@.len() == stride_of(Self::size_spec() as nat, Self::align_spec() as nat),
        ensures
            value == Self::from_bytes_spec(buf@),
    ;
}

/// The number that the four bytes of `buf` spell, least significant byte
/// first.
fn read_le(buf: &[u8]) -> (value: u32)
    requires
        buf@.len() == 4,
    ensures
        value == le_value(buf@),
{
    proof {
        reveal_with_fuel(le_value, 5);
        assert(buf@.skip(1).skip(1).skip(1).skip(1).len() == 0);
    }
    buf[0] as u32 + buf[1] as u32 * 0x100 + buf[2] as u32 * 0x1_0000 + buf[3] as u32 * 0x100_0000
}

impl FromShaderBytes for u32 {
    open spec fn from_bytes_spec(buf: Seq<u8>) -> u32 {
        le_value(buf) as u32
    }

    fn from_shader_bytes(buf: &[u8]) -> (value: u32) {
        assert(stride_of(4, 4) == 4);
        read_le(buf)
    }
}

/// The number whose 32 bits are those of `value` in two's complement.
pub open spec fn twos_complement(value: i32) -> nat {
    if value >= 0 {
        value as nat
    } else {
        (value + 0x1_0000_0000) as nat
    }
}

/// The signed number whose 32 bits in two's complement are those of `bits`.
pub open spec fn from_twos_complement(bits: nat) -> i32 {
    if bits < 0x8000_0000 {
        bits as i32
    } else {
        (bits - 0x1_0000_0000) as i32
    }
}

impl ShaderBytesInfo for i32 {
    open spec fn size_spec() -> usize {
        4
    }

    open spec fn align_spec() -> usize {
        4
    }

    fn shader_bytes_size() -> (size: usize) {
        4
    }

    fn shader_bytes_align() -> (align: usize) {
        4
    }
}

impl IntoShaderBytes for i32 {
    open spec fn shader_bytes(&self) -> Seq<u8> {
        le_bytes(twos_complement(*self), 4)
    }

    fn to_shader_bytes(&self, res: &mut [u8]) {
        let bits: u32 = if *self >= 0 {
            *self as u32
        } else {
            (*self as i64 + 0x1_0000_0000) as u32
        };
        write_le(bits, res);
    }
}

impl FromShaderBytes for i32 {
    open spec fn from_bytes_spec(buf: Seq<u8>) -> i32 {
        from_twos_complement(le_value(buf))
    }

    fn from_shader_bytes(buf: &[u8]) -> (value: i32) {
        assert(stride_of(4, 4) == 4);
        let bits = read_le(buf);
        if bits < 0x8000_0000 {
            bits as i32
        } else {
            (bits as i64 - 0x1_0000_0000) as i32
        }
    }
}

/// `le_bytes` gives as many bytes as it is asked for.
pub proof fn lemma_le_bytes_len(value: nat, width: nat)
    ensures
        le_bytes(value, width).len() == width,
    decreases width,
{
    if width > 0 {
        lemma_le_bytes_len(value / 256, (width - 1) as nat);
    }
}

/// Reading what `le_bytes` wrote gives the value back, as long as the value
/// fits in `width` bytes.
pub proof fn lemma_le_value_of_bytes(value: nat, width: nat)
    requires
        value < pow256(width),
    ensures
        le_value(le_bytes(value, width)) == value,
    decreases width,
{
    if width > 0 {
        lemma_le_bytes_len(value / 256, (width - 1) as nat);
        lemma_le_value_of_bytes(value / 256, (width - 1) as nat);
        assert(le_bytes(value, width).skip(1) =~= le_bytes(value / 256, (width - 1) as nat));
    }
}

/// A `u32` and an `i32` come back from their shader bytes unchanged.
pub proof fn lemma_word_round_trip(unsigned: u32, signed: i32)
    ensures
        u32::from_bytes_spec(unsigned.shader_bytes()) == unsigned,
        i32::from_bytes_spec(signed.shader_bytes()) == signed,
{
    lemma_pow256_values();
    lemma_le_value_of_bytes(unsigned as nat, 4);
    lemma_le_value_of_bytes(twos_complement(signed), 4);
}

/// The values of `data` as a shader reads an array of them: each value's
/// bytes, filled up with zeros to the array stride of its type.
pub open spec fn serialised<T: IntoShaderBytes>(data: Seq<T>) -> Seq<u8>
    decreases data.len(),
{
    if data.len() == 0 {
        Seq::empty()
    } else {
        serialised(data.drop_last()) + padded(
            data.last().shader_bytes(),
            stride_of(T::size_spec() as nat, T::align_spec() as nat),
        )
    }
}

/// The first `count` array elements of `data`, read as values of `T`.
pub open spec fn deserialised<T: FromShaderBytes>(data: Seq<u8>, count: nat) -> Seq<T> {
    let stride = stride_of(T::size_spec() as nat, T::align_spec() as nat);
    Seq::new(count, |i: int| T::from_bytes_spec(data.subrange(i * stride, (i + 1) * stride)))
}

/// Bytes in the layout that a shader expects.
pub struct ShaderBytes<'a> {
    inner: Cow<'a, [u8]>,
}

impl<'a> View for ShaderBytes<'a> {
    type V = Seq<u8>;

    closed spec fn view(&self) -> Seq<u8> {
        self.inner@
    }
}

impl<'a> ShaderBytes<'a> {
    pub fn get_data(&self) -> (data: &[u8])
        ensures
            data@ == self@,
    {
        match &self.inner {
            Cow::Borrowed(data) => data,
            Cow::Owned(data) => data.as_slice(),
        }
    }

    pub fn into_data(self) -> (data: Cow<'a, [u8]>)
        ensures
            data@ == self@,
    {
        self.inner
    }

    /// Takes `data` as it is. That the bytes are laid out as the shader
    /// expects is for the caller to see to.
    pub fn from_raw(data: &'a [u8]) -> (bytes: ShaderBytes<'a>)
        ensures
            bytes@ == data@,
    {
        ShaderBytes { inner: Cow::Borrowed(data) }
    }

    /// Lays the values of `data` out as an array in a shader's memory.
    ///
    /// The type has a size and an alignment of at least one byte, and its
    /// array stride fits the machine.
    pub fn serialise_from_slice<T>(data: &[T]) -> (bytes: ShaderBytes<'a>) where T: IntoShaderBytes
        requires
            T::size_spec() > 0,
            T::align_spec() > 0,
            T::size_spec() + T::align_spec() <= usize::MAX,
        ensures
            bytes@ == serialised::<T>(data@),
    {
        let size = T::shader_bytes_size();
        let stride = next_multiple_of(size, T::shader_bytes_align());
        proof {
            lemma_stride_of(size as nat, T::align_spec() as nat);
        }
        let mut out: Vec<u8> = Vec::new();
        let mut i: usize = 0;
        while i < data.len()
            invariant
                i <= data.len(),
                size == T::size_spec(),
                size <= stride,
                stride == stride_of(T::size_spec() as nat, T::align_spec() as nat),
                out@ == serialised::<T>(data@.take(i as int)),
            decreases data.len() - i,
        {
            let mut chunk: Vec<u8> = Vec::new();
            let mut k: usize = 0;
            while k < stride
                invariant
                    k <= stride,
                    chunk@ == Seq::new(k as nat, |j: int| 0u8),
                decreases stride - k,
            {
                chunk.push(0u8);
                assert(chunk@ =~= Seq::new((k + 1) as nat, |j: int| 0u8));
                k = k + 1;
            }
            data[i].to_shader_bytes(chunk.as_mut_slice());
            proof {
                let zeros = Seq::new(stride as nat, |j: int| 0u8);
                assert(chunk@ =~= chunk@.take(size as int) + chunk@.skip(size as int));
                assert(zeros.skip(size as int) =~= Seq::new((stride - size) as nat, |j: int| 0u8));
                assert(chunk@ =~= padded(data@[i as int].shader_bytes(), stride as nat));
                assert(data@.take(i + 1).drop_last() =~= data@.take(i as int));
            }
            out.append(&mut chunk);
            i = i + 1;
        }
        assert(data@.take(data.len() as int) =~= data@);
        ShaderBytes { inner: Cow::Owned(out) }
    }

    /// Reads `data` as an array of values of `T`. Bytes behind the last
    /// whole element are passed over.
    ///
    /// The type has a size and an alignment of at least one byte, and its
    /// array stride fits the machine.
    pub fn deserialise_to_slice<T>(data: &[u8]) -> (values: Vec<T>) where T: FromShaderBytes
        requires
            T::size_spec() > 0,
            T::align_spec() > 0,
            T::size_spec() + T::align_spec() <= usize::MAX,
        ensures
            values@ == deserialised::<T>(
                data@,
                data@.len() / stride_of(T::size_spec() as nat, T::align_spec() as nat),
            ),
    {
        let stride = next_multiple_of(T::shader_bytes_size(), T::shader_bytes_align());
        proof {
            lemma_stride_of(T::size_spec() as nat, T::align_spec() as nat);
        }
        let len = data.len();
        let count = len / stride;
        proof {
            lemma_fundamental_div_mod(len as int, stride as int);
        }
        let mut values: Vec<T> = Vec::new();
        let mut i: usize = 0;
        while i < count
            invariant
                i <= count,
                stride > 0,
                stride == stride_of(T::size_spec() as nat, T::align_spec() as nat),
                len == data@.len(),
                count == data@.len() / stride as nat,
                stride * count <= len,
                values@ == deserialised::<T>(data@, i as nat),
            decreases count - i,
        {
            proof {
                assert(0 <= i * stride && (i + 1) * stride <= stride * count && (i + 1) * stride
                    == i * stride + stride) by (nonlinear_arith)
                    requires
                        0 <= i < count,
                        stride > 0,
                ;
            }
            let element = slice_subrange(data, i * stride, i * stride + stride);
            let value = T::from_shader_bytes(element);
            values.push(value);
            assert(values@ =~= deserialised::<T>(data@, (i + 1) as nat));
            i = i + 1;
        }
        values
    }
}

} // verus!
