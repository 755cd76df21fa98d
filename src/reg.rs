//! Register values and field access.
use vstd::arithmetic::power2::pow2;
use vstd::bits::lemma_u64_low_bits_mask_is_mod;
use vstd::bits::lemma_u64_shl_is_mul;
use vstd::bits::lemma_u64_pow2_no_overflow;
use vstd::bits::low_bits_mask;
use vstd::prelude::*;
use std::marker::PhantomData;
use std::rc::Rc;

verus! {

/// The widths, in bits, that a register may have.
pub open spec fn valid_width(width: u64) -> bool {
    width == 8 || width == 16 || width == 32 || width == 64
}

/// The low `width` bits set, for `width` up to 64.
pub open spec fn width_mask(width: u64) -> u64 {
    if width >= 64 {
        u64::MAX
    } else {
        ((1u64 << width) - 1) as u64
    }
}

/// The value of the field of `width` bits at bit `offset` of `bits`.
pub open spec fn field_value(bits: u64, offset: u64, width: u64) -> u64 {
    (bits >> offset) & width_mask(width)
}

/// `bits` with the field of `width` bits at `offset` replaced by the low
/// `width` bits of `x`; the other bits are kept.
pub open spec fn with_field(bits: u64, offset: u64, width: u64, x: u64) -> u64 {
    (bits & !(width_mask(width) << offset)) | ((x & width_mask(width)) << offset)
}

fn mask_of(width: u64) -> (r: u64)
    requires
        width <= 64,
    ensures
        r == width_mask(width),
{
    if width >= 64 {
        u64::MAX
    } else {
        assert(1u64 << width >= 1) by (bit_vector)
            requires
                width < 64,
        ;
        (1u64 << width) - 1
    }
}

/// Reading a field back after writing `x` to it gives `x` modulo two to the
/// field's width, and the write leaves every bit outside the field as it was.
pub proof fn lemma_field_truncation(bits: u64, offset: u64, width: u64, x: u64)
    requires
        1 <= width,
        offset + width <= 64,
    ensures
        field_value(with_field(bits, offset, width, x), offset, width) as int == x as int % pow2(
            width as nat,
        ) as int,
        forall|i: u64|
            i < 64 && !(offset <= i < offset + width) ==> #[trigger] ((with_field(
                bits,
                offset,
                width,
                x,
            ) >> i) & 1) == (bits >> i) & 1,
{
    lemma_field_write_keeps_other_bits(bits, offset, width, x);
    if width < 64 {
        let m = width_mask(width);
        assert(((((bits & !(m << offset)) | ((x & m) << offset)) >> offset) & m) == x & m)
            by (bit_vector)
            requires
                m == ((1u64 << width) - 1) as u64,
                width < 64,
                offset + width <= 64,
        ;
        lemma_u64_pow2_no_overflow(width as nat);
        lemma_u64_shl_is_mul(1, width);
        assert(low_bits_mask(width as nat) == pow2(width as nat) - 1) by {
            vstd::bits::lemma_low_bits_mask_unfold(width as nat);
        }
        lemma_u64_low_bits_mask_is_mod(x, width as nat);
        assert(m == low_bits_mask(width as nat) as u64);
        assert(x & m == x % (pow2(width as nat) as u64));
    } else {
        assert(offset == 0);
        let m = u64::MAX;
        assert(((((bits & !(m << 0u64)) | ((x & m) << 0u64)) >> 0u64) & m) == x) by (bit_vector)
            requires
                m == 0xffff_ffff_ffff_ffffu64,
        ;
        vstd::arithmetic::power2::lemma2_to64_rest();
        assert(x as int % pow2(64) as int == x as int);
    }
}

proof fn lemma_field_write_keeps_other_bits(bits: u64, offset: u64, width: u64, x: u64)
    requires
        1 <= width,
        offset + width <= 64,
    ensures
        forall|i: u64|
            i < 64 && !(offset <= i < offset + width) ==> #[trigger] ((with_field(
                bits,
                offset,
                width,
                x,
            ) >> i) & 1) == (bits >> i) & 1,
{
    let m = width_mask(width);
    assert forall|i: u64| i < 64 && !(offset <= i < offset + width) implies #[trigger] ((
    with_field(bits, offset, width, x) >> i) & 1) == (bits >> i) & 1 by {
        if width < 64 {
            assert(((((bits & !(m << offset)) | ((x & m) << offset)) >> i) & 1) == (bits >> i) & 1)
                by (bit_vector)
                requires
                    m == ((1u64 << width) - 1) as u64,
                    1 <= width < 64,
                    offset + width <= 64,
                    i < 64,
                    !(offset <= i < offset + width),
            ;
        }
    }
}

/// A contiguous run of bits inside a register, with its declared access.
#[derive(Clone, Copy, Debug, PartialEq, Eq)]
pub struct BitField {
    /// Index of the lowest bit.
    pub offset: u64,
    /// Number of bits.
    pub width: u64,
    pub readable: bool,
    pub writable: bool,
}

impl BitField {
    pub fn new(offset: u64, width: u64, readable: bool, writable: bool) -> (r: BitField)
        ensures
            r == (BitField { offset, width, readable, writable }),
    {
        BitField { offset, width, readable, writable }
    }

    /// The field is at least one bit wide and lies inside a register of
    /// `reg_width` bits.
    pub open spec fn fits(self, reg_width: u64) -> bool {
        1 <= self.width && self.offset + self.width <= reg_width
    }

    /// Whether the field lies inside a register of `reg_width` bits.
    pub fn fits_in(&self, reg_width: u64) -> (r: bool)
        ensures
            r == self.fits(reg_width),
    {
        1 <= self.width && self.width <= reg_width && self.offset <= reg_width - self.width
    }
}

/// The masks of the four register widths.
pub proof fn lemma_width_masks()
    ensures
        width_mask(8) == 0xff,
        width_mask(16) == 0xffff,
        width_mask(32) == 0xffff_ffff,
        width_mask(64) == 0xffff_ffff_ffff_ffff,
{
    assert(1u64 << 8u64 == 0x100) by (bit_vector);
    assert(1u64 << 16u64 == 0x1_0000) by (bit_vector);
    assert(1u64 << 32u64 == 0x1_0000_0000) by (bit_vector);
}

/// An unsigned integer type that stores the bits of a register: its width is
/// the register's width.
pub trait RegBits: Copy {
    /// The width in bits.
    spec fn spec_width() -> u64;

    /// The stored bits, as a 64-bit word.
    spec fn word(self) -> u64;

    fn width() -> (r: u64)
        ensures
            r == Self::spec_width(),
            valid_width(r),
    ;

    fn to_word(self) -> (r: u64)
        ensures
            r == self.word(),
            r & !width_mask(Self::spec_width()) == 0,
    ;

    fn from_word(w: u64) -> (r: Self)
        requires
            w & !width_mask(Self::spec_width()) == 0,
        ensures
            r.word() == w,
    ;
}

impl RegBits for u8 {
    open spec fn spec_width() -> u64 {
        8
    }

    open spec fn word(self) -> u64 {
        self as u64
    }

    fn width() -> (r: u64) {
        8
    }

    fn to_word(self) -> (r: u64) {
        proof {
            lemma_width_masks();
        }
        let r = self as u64;
        assert(r & !0xffu64 == 0) by (bit_vector)
            requires
                r <= 0xff,
        ;
        r
    }

    fn from_word(w: u64) -> (r: u8) {
        proof {
            lemma_width_masks();
        }
        assert(w <= 0xff) by (bit_vector)
            requires
                w & !0xffu64 == 0,
        ;
        w as u8
    }
}

impl RegBits for u16 {
    open spec fn spec_width() -> u64 {
        16
    }

    open spec fn word(self) -> u64 {
        self as u64
    }

    fn width() -> (r: u64) {
        16
    }

    fn to_word(self) -> (r: u64) {
        proof {
            lemma_width_masks();
        }
        let r = self as u64;
        assert(r & !0xffffu64 == 0) by (bit_vector)
            requires
                r <= 0xffff,
        ;
        r
    }

    fn from_word(w: u64) -> (r: u16) {
        proof {
            lemma_width_masks();
        }
        assert(w <= 0xffff) by (bit_vector)
            requires
                w & !0xffffu64 == 0,
        ;
        w as u16
    }
}

impl RegBits for u32 {
    open spec fn spec_width() -> u64 {
        32
    }

    open spec fn word(self) -> u64 {
        self as u64
    }

    fn width() -> (r: u64) {
        32
    }

    fn to_word(self) -> (r: u64) {
        proof {
            lemma_width_masks();
        }
        let r = self as u64;
        assert(r & !0xffff_ffffu64 == 0) by (bit_vector)
            requires
                r <= 0xffff_ffff,
        ;
        r
    }

    fn from_word(w: u64) -> (r: u32) {
        proof {
            lemma_width_masks();
        }
        assert(w <= 0xffff_ffff) by (bit_vector)
            requires
                w & !0xffff_ffffu64 == 0,
        ;
        w as u32
    }
}

impl RegBits for u64 {
    open spec fn spec_width() -> u64 {
        64
    }

    open spec fn word(self) -> u64 {
        self
    }

    fn width() -> (r: u64) {
        64
    }

    fn to_word(self) -> (r: u64) {
        proof {
            lemma_width_masks();
        }
        assert(self & !0xffff_ffff_ffff_ffffu64 == 0) by (bit_vector);
        self
    }

    fn from_word(w: u64) -> (r: u64) {
        w
    }
}

/// The bit pattern of a register, stored in the register's own width.
#[derive(Clone, Copy, Debug, PartialEq, Eq)]
pub struct RegisterValue<B> {
    bits: B,
}

impl<B: RegBits> RegisterValue<B> {
    /// The bit pattern as a 64-bit word.
    pub closed spec fn spec_bits(self) -> u64 {
        self.bits.word()
    }

    /// No bit above the width is set.
    pub open spec fn wf(self) -> bool {
        valid_width(B::spec_width()) && self.spec_bits() & !width_mask(B::spec_width()) == 0
    }

    /// A value holding `bits`; the bits above the register's width are masked
    /// off.
    pub fn new(bits: u64) -> (r: Self)
        ensures
            r.wf(),
            r.spec_bits() == bits & width_mask(B::spec_width()),
    {
        let m = mask_of(B::width());
        let b = bits & m;
        assert(b & !m == 0) by (bit_vector)
            requires
                b == bits & m,
        ;
        RegisterValue { bits: B::from_word(b) }
    }

    /// The raw bit pattern.
    pub fn bits(&self) -> (r: B)
        ensures
            r.word() == self.spec_bits(),
    {
        self.bits
    }

    /// The width in bits.
    pub fn width(&self) -> (r: u64)
        ensures
            r == B::spec_width(),
    {
        B::width()
    }

    /// Reads a readable field.
    pub fn field(&self, f: &BitField) -> (r: u64)
        requires
            self.wf(),
            f.readable,
            f.fits(B::spec_width()),
        ensures
            r == field_value(self.spec_bits(), f.offset, f.width),
    {
        (self.bits.to_word() >> f.offset) & mask_of(f.width)
    }

    /// After `set_field(f, x)` turned `before` into `after`, reading `f` from
    /// `after` gives `x` modulo two to the field's width, and every bit of the
    /// register outside `f` is as it was in `before`.
    pub proof fn lemma_set_then_read(before: Self, after: Self, f: BitField, x: u64)
        requires
            before.wf(),
            f.fits(B::spec_width()),
            after.spec_bits() == with_field(before.spec_bits(), f.offset, f.width, x),
        ensures
            field_value(after.spec_bits(), f.offset, f.width) as int == x as int % pow2(
                f.width as nat,
            ) as int,
            forall|i: u64|
                i < B::spec_width() && !(f.offset <= i < f.offset + f.width) ==> #[trigger] ((
                after.spec_bits() >> i) & 1) == (before.spec_bits() >> i) & 1,
    {
        lemma_field_truncation(before.spec_bits(), f.offset, f.width, x);
    }

    /// Writes the low bits of `x` to a writable field; bits of `x` beyond the
    /// field's width are dropped, and the rest of the value is kept.
    pub fn set_field(&mut self, f: &BitField, x: u64)
        requires
            old(self).wf(),
            f.writable,
            f.fits(B::spec_width()),
        ensures
            final(self).wf(),
            final(self).spec_bits() == with_field(old(self).spec_bits(), f.offset, f.width, x),
    {
        let m = mask_of(f.width);
        let o = f.offset;
        let b = self.bits.to_word();
        let nb = (b & !(m << o)) | ((x & m) << o);
        proof {
            lemma_with_field_keeps_width(b, o, f.width, x, B::spec_width());
        }
        self.bits = B::from_word(nb);
    }
}

proof fn lemma_with_field_keeps_width(bits: u64, offset: u64, width: u64, x: u64, reg_width: u64)
    requires
        valid_width(reg_width),
        bits & !width_mask(reg_width) == 0,
        1 <= width,
        offset + width <= reg_width,
    ensures
        with_field(bits, offset, width, x) & !width_mask(reg_width) == 0,
{
    let m = width_mask(width);
    let n = with_field(bits, offset, width, x);
    if width < 64 {
        if reg_width == 64 {
            assert(n & !0xffff_ffff_ffff_ffffu64 == 0) by (bit_vector);
        } else {
            let rm = width_mask(reg_width);
            assert(n & !rm == 0) by (bit_vector)
                requires
                    m == ((1u64 << width) - 1) as u64,
                    rm == ((1u64 << reg_width) - 1) as u64,
                    bits & !rm == 0,
                    n == (bits & !(m << offset)) | ((x & m) << offset),
                    width < 64,
                    reg_width < 64,
                    offset + width <= reg_width,
            ;
        }
    } else {
        assert(n & !0xffff_ffff_ffff_ffffu64 == 0) by (bit_vector);
    }
}


/// Why a register description was refused.
#[derive(Clone, Copy, Debug, PartialEq, Eq)]
pub enum DescriptorError {
    /// The reset value has bits set above the width.
    ResetOutOfRange,
    /// The field at this position of the list is empty or reaches past the
    /// register's width.
    FieldOutOfRange(usize),
}

/// The layout of one memory-mapped register whose bits are stored in `B`:
/// where it is, its value after reset, its declared access and its fields.
pub struct RegisterDescriptor<B> {
    address: u64,
    reset_value: B,
    readable: bool,
    writable: bool,
    fields: Vec<BitField>,
}

/// `i` is the position of the first field in `fields` that does not fit in a
/// register of `width` bits.
pub open spec fn first_misfit(fields: Seq<BitField>, width: u64, i: int) -> bool {
    0 <= i < fields.len() && !fields[i].fits(width) && forall|j: int|
        0 <= j < i ==> #[trigger] fields[j].fits(width)
}

impl<B: RegBits> RegisterDescriptor<B> {
    /// Every field fits in the register.
    pub open spec fn wf(&self) -> bool {
        forall|i: int|
            0 <= i < self.spec_fields().len() ==> #[trigger] self.spec_fields()[i].fits(
                B::spec_width(),
            )
    }

    pub closed spec fn spec_address(&self) -> u64 {
        self.address
    }

    pub closed spec fn spec_reset_value(&self) -> u64 {
        self.reset_value.word()
    }

    pub closed spec fn spec_readable(&self) -> bool {
        self.readable
    }

    pub closed spec fn spec_writable(&self) -> bool {
        self.writable
    }

    pub closed spec fn spec_fields(&self) -> Seq<BitField> {
        self.fields@
    }

    /// Checks a description once, when it is built: a reset value within the
    /// register's width, and fields that lie inside it.
    pub fn new(
        address: u64,
        reset_value: u64,
        readable: bool,
        writable: bool,
        fields: Vec<BitField>,
    ) -> (r: Result<Self, DescriptorError>)
        ensures
            reset_value & !width_mask(B::spec_width()) != 0 ==> r == Err::<Self, _>(
                DescriptorError::ResetOutOfRange,
            ),
            reset_value & !width_mask(B::spec_width()) == 0 ==> match r {
                Ok(d) => {
                    &&& d.wf()
                    &&& d.spec_address() == address
                    &&& d.spec_reset_value() == reset_value
                    &&& d.spec_readable() == readable
                    &&& d.spec_writable() == writable
                    &&& d.spec_fields() == fields@
                },
                Err(e) => exists|i: int|
                    first_misfit(fields@, B::spec_width(), i) && e
                        == DescriptorError::FieldOutOfRange(i as usize),
            },
            r is Ok <==> reset_value & !width_mask(B::spec_width()) == 0 && forall|i: int|
                0 <= i < fields@.len() ==> #[trigger] fields@[i].fits(B::spec_width()),
    {
        let width = B::width();
        if reset_value & !mask_of(width) != 0 {
            return Err(DescriptorError::ResetOutOfRange);
        }
        let mut i: usize = 0;
        while i < fields.len()
            invariant
                i <= fields@.len(),
                width == B::spec_width(),
                reset_value & !width_mask(width) == 0,
                forall|j: int| 0 <= j < i ==> #[trigger] fields@[j].fits(width),
            decreases fields@.len() - i,
        {
            if !fields[i].fits_in(width) {
                assert(first_misfit(fields@, width, i as int));
                return Err(DescriptorError::FieldOutOfRange(i));
            }
            i += 1;
        }
        Ok(
            RegisterDescriptor {
                address,
                reset_value: B::from_word(reset_value),
                readable,
                writable,
                fields,
            },
        )
    }

    pub fn address(&self) -> (r: u64)
        ensures
            r == self.spec_address(),
    {
        self.address
    }

    pub fn width(&self) -> (r: u64)
        ensures
            r == B::spec_width(),
    {
        B::width()
    }

    pub fn readable(&self) -> (r: bool)
        ensures
            r == self.spec_readable(),
    {
        self.readable
    }

    pub fn writable(&self) -> (r: bool)
        ensures
            r == self.spec_writable(),
    {
        self.writable
    }

    /// The declared fields, in declaration order.
    pub fn fields(&self) -> (r: &Vec<BitField>)
        ensures
            r@ == self.spec_fields(),
    {
        &self.fields
    }

    /// The value the register holds after reset.
    pub fn default_val(&self) -> (r: RegisterValue<B>)
        ensures
            r.wf(),
            r.spec_bits() == self.spec_reset_value(),
    {
        let b = self.reset_value.to_word();
        let r = RegisterValue::<B>::new(b);
        let ghost m = width_mask(B::spec_width());
        assert(b & !m == 0 ==> b & m == b) by (bit_vector);
        r
    }
}

/// Ownership tag of a token that is the one handle of its register in the
/// program: it can be neither copied nor handed to another thread.
pub struct Urt {
    confined: PhantomData<Rc<()>>,
}

/// Ownership tag of a token that may be duplicated and shared across threads;
/// writes through it must be atomic.
#[derive(Clone, Copy, Debug)]
pub struct Srt;

/// Ownership tag of a token that may be copied freely and shared across
/// threads.
#[derive(Clone, Copy, Debug)]
pub struct Crt;

/// A zero-size handle to the register at `ADDRESS` whose bits are stored in
/// `B` and whose reset value is `RESET`; the ownership tag `O` says who may
/// hold it.
pub struct Reg<O, B, const ADDRESS: u64, const RESET: u64> {
    tag: PhantomData<O>,
    bits: PhantomData<B>,
}

impl<O, B: RegBits, const ADDRESS: u64, const RESET: u64> Reg<O, B, ADDRESS, RESET> {
    /// Claims a token of the register.
    ///
    /// For the exclusive tag `Urt` the caller answers for calling this at
    /// most once for a register in the life of the program: two such tokens
    /// would both grant exclusive writes.
    pub fn take() -> (r: Self) {
        Reg { tag: PhantomData, bits: PhantomData }
    }

    /// The register's address.
    pub fn address(&self) -> (r: u64)
        ensures
            r == ADDRESS,
    {
        ADDRESS
    }

    /// The value the register holds after reset.
    pub fn default_val(&self) -> (r: RegisterValue<B>)
        requires
            RESET & !width_mask(B::spec_width()) == 0,
        ensures
            r.wf(),
            r.spec_bits() == RESET,
    {
        let r = RegisterValue::<B>::new(RESET);
        let b = RESET;
        let ghost m = width_mask(B::spec_width());
        assert(b & !m == 0 ==> b & m == b) by (bit_vector);
        r
    }
}

impl<B: RegBits, const ADDRESS: u64, const RESET: u64> Reg<Srt, B, ADDRESS, RESET> {
    /// A shared token of the register.
    pub fn new() -> (r: Self) {
        Reg { tag: PhantomData, bits: PhantomData }
    }
}

impl<B: RegBits, const ADDRESS: u64, const RESET: u64> Clone for Reg<Srt, B, ADDRESS, RESET> {
    fn clone(&self) -> (r: Self) {
        Reg { tag: PhantomData, bits: PhantomData }
    }
}

impl<B: RegBits, const ADDRESS: u64, const RESET: u64> Reg<Crt, B, ADDRESS, RESET> {
    /// A copyable token of the register.
    pub fn new() -> (r: Self) {
        Reg { tag: PhantomData, bits: PhantomData }
    }
}

impl<B: RegBits, const ADDRESS: u64, const RESET: u64> Clone for Reg<Crt, B, ADDRESS, RESET> {
    fn clone(&self) -> (r: Self) {
        Reg { tag: PhantomData, bits: PhantomData }
    }
}

impl<B: RegBits, const ADDRESS: u64, const RESET: u64> Copy for Reg<Crt, B, ADDRESS, RESET> {

}

} // verus!
