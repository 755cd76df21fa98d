use drone_core::reg::BitField;
use drone_core::reg::Crt;
use drone_core::reg::DescriptorError;
use drone_core::reg::Reg;
use drone_core::reg::RegisterDescriptor;
use drone_core::reg::RegisterValue;
use drone_core::reg::Srt;
use drone_core::reg::Urt;
use std::marker::PhantomData;
use std::mem::size_of;

type TestReg<O> = Reg<O, u32, 0xDEAD_BEEF, 0xBEEF_CACE>;
type Val = RegisterValue<u32>;

const TEST_BIT: BitField = BitField { offset: 0, width: 1, readable: true, writable: true };
const TEST_BITS: BitField = BitField { offset: 1, width: 3, readable: true, writable: true };

struct Probe<T>(PhantomData<T>);

trait Fallback {
    fn is_send(&self) -> bool {
        false
    }
    fn is_sync(&self) -> bool {
        false
    }
}

impl<T> Fallback for Probe<T> {}

impl<T: Send> Probe<T> {
    #[allow(dead_code)]
    fn is_send(&self) -> bool {
        true
    }
}

struct SyncProbe<T>(PhantomData<T>);

impl<T> Fallback for SyncProbe<T> {}

impl<T: Sync> SyncProbe<T> {
    #[allow(dead_code)]
    fn is_sync(&self) -> bool {
        true
    }
}

#[test]
fn reg_default_val() {
    assert_eq!(TestReg::<Srt>::take().default_val().bits(), 0xBEEF_CACE);
}

#[test]
fn size_of_reg() {
    assert_eq!(size_of::<TestReg<Urt>>(), 0);
    assert_eq!(size_of::<TestReg<Srt>>(), 0);
    assert_eq!(size_of::<TestReg<Crt>>(), 0);
}

#[test]
fn size_of_reg_val() {
    assert_eq!(size_of::<Val>(), 4);
}

#[test]
fn unsynchronized_token_reads_reset_and_fields() {
    let token = TestReg::<Urt>::take();
    assert_eq!(token.address(), 0xDEAD_BEEF);
    let val = token.default_val();
    assert_eq!(val.bits(), 0xBEEF_CACE);
    assert_eq!(val.width(), 32);
    assert_eq!(val.field(&TEST_BIT), 0);
    assert_eq!(val.field(&TEST_BITS), (0xCACE >> 1) & 0b111);
    assert_eq!(val.field(&TEST_BITS), 7);
}

#[test]
fn shared_and_copyable_tokens_cross_threads() {
    assert!(Probe::<TestReg<Srt>>(PhantomData).is_send());
    assert!(SyncProbe::<TestReg<Srt>>(PhantomData).is_sync());
    assert!(Probe::<TestReg<Crt>>(PhantomData).is_send());
    assert!(SyncProbe::<TestReg<Crt>>(PhantomData).is_sync());
    assert!(!Probe::<TestReg<Urt>>(PhantomData).is_send());
    assert!(!SyncProbe::<TestReg<Urt>>(PhantomData).is_sync());
}

#[test]
fn shared_and_copyable_tokens_duplicate() {
    let shared = TestReg::<Srt>::new();
    let again = shared.clone();
    assert_eq!(again.default_val().bits(), 0xBEEF_CACE);
    let copy = TestReg::<Crt>::new();
    let other = copy;
    assert_eq!(copy.address(), other.address());
}

#[test]
fn new_value_masks_to_width() {
    assert_eq!(RegisterValue::<u8>::new(0x1FF).bits(), 0xFF);
    assert_eq!(RegisterValue::<u16>::new(0x1_2345).bits(), 0x2345);
    assert_eq!(RegisterValue::<u32>::new(0x1_0000_0001).bits(), 1);
    assert_eq!(RegisterValue::<u64>::new(u64::MAX).bits(), u64::MAX);
}

#[test]
fn written_field_reads_back_truncated() {
    let mut val = TestReg::<Urt>::take().default_val();
    val.set_field(&TEST_BITS, 0b1_1010);
    assert_eq!(val.field(&TEST_BITS), 0b010);
    assert_eq!(val.field(&TEST_BIT), 0);
    assert_eq!(val.bits(), 0xBEEF_CAC4);
    val.set_field(&TEST_BIT, 1);
    assert_eq!(val.field(&TEST_BIT), 1);
    assert_eq!(val.field(&TEST_BITS), 0b010);
    assert_eq!(val.bits(), 0xBEEF_CAC5);
}

#[test]
fn full_width_field_round_trips() {
    let whole = BitField::new(0, 64, true, true);
    let mut val = RegisterValue::<u64>::new(0);
    val.set_field(&whole, u64::MAX - 5);
    assert_eq!(val.field(&whole), u64::MAX - 5);
    let top = BitField::new(60, 4, true, true);
    val.set_field(&top, 0x13);
    assert_eq!(val.field(&top), 0x3);
    assert_eq!(val.bits(), 0x3FFF_FFFF_FFFF_FFFA);
}

#[test]
fn field_fits_in_width() {
    assert!(TEST_BITS.fits_in(8));
    assert!(!BitField::new(6, 3, true, false).fits_in(8));
    assert!(!BitField::new(0, 0, true, false).fits_in(8));
    assert!(BitField::new(0, 64, true, false).fits_in(64));
}

#[test]
fn descriptor_keeps_layout() {
    let d = RegisterDescriptor::<u32>::new(0xDEAD_BEEF, 0xBEEF_CACE, true, false, vec![TEST_BIT, TEST_BITS]).unwrap();
    assert_eq!(d.address(), 0xDEAD_BEEF);
    assert_eq!(d.width(), 32);
    assert!(d.readable());
    assert!(!d.writable());
    assert_eq!(d.fields().len(), 2);
    assert_eq!(d.fields()[1], TEST_BITS);
    assert_eq!(d.default_val().bits(), 0xBEEF_CACE);
}

#[test]
fn descriptor_refuses_wide_reset() {
    let r = RegisterDescriptor::<u8>::new(0x10, 0x100, true, true, vec![]);
    assert_eq!(r.err(), Some(DescriptorError::ResetOutOfRange));
}

#[test]
fn descriptor_refuses_outside_field() {
    let fields = vec![TEST_BIT, BitField::new(7, 2, true, true), BitField::new(9, 1, true, true)];
    let r = RegisterDescriptor::<u8>::new(0x10, 0x01, true, true, fields);
    assert_eq!(r.err(), Some(DescriptorError::FieldOutOfRange(1)));
}
