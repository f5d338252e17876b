use circuit_layout::assign::ValueSchema;
use circuit_layout::context::{
    Context, GeneralScalarEccContext, IntegerContext, NativeScalarEccContext, RangeInfo,
    SharedContext, OVERFLOW_BITS,
};
use circuit_layout::layout::COMMON_RANGE_BITS;
use circuit_layout::records::Records;
use halo2_proofs::pasta::Fp;

#[test]
fn new_context() {
    let ctx: Context<Fp> = Context::new();
    assert_eq!(ctx.records, Records::new());
    assert_eq!(ctx.base_offset, 0);
    assert_eq!(ctx.range_offset, 0);
}

#[test]
fn context_names_its_cursors() {
    let mut ctx: Context<Fp> = Context::new();
    assert_eq!(ctx.to_string(), "(range_offset: 0, base_offset: 0)");
    ctx.base_offset = 1205;
    ctx.range_offset = 9;
    assert_eq!(ctx.to_string(), "(range_offset: 9, base_offset: 1205)");
    ctx.range_offset = usize::MAX;
    assert_eq!(ctx.to_string(), format!("(range_offset: {}, base_offset: 1205)", usize::MAX));
}

#[test]
fn integer_context_options() {
    let (_shared, handle) = SharedContext::new(Context::<Fp>::new());
    let layer = IntegerContext::new(handle);
    assert_eq!(layer.info, RangeInfo::new(COMMON_RANGE_BITS, 6));
    assert_eq!(OVERFLOW_BITS, 6);
    let (_shared, handle) = SharedContext::new(Context::<Fp>::new());
    let layer = IntegerContext::new_with_options(handle, 17, 3);
    assert_eq!(layer.info.common_range_bits, 17);
    assert_eq!(layer.info.overflow_bits, 3);
}

#[test]
fn last_holder_gets_the_context() {
    let (mut shared, handle) = SharedContext::new(Context::<Fp>::new());
    assert_eq!(shared.holder_count(), 1);
    let layer = IntegerContext::new(handle);
    shared.borrow_mut(&layer.ctx).records.one_line(
        0,
        vec![(ValueSchema::Unassigned(Fp::from(3)), Fp::from(1))],
        None,
        (vec![], None),
    );
    shared.borrow_mut(&layer.ctx).base_offset = 1;
    assert_eq!(shared.borrow(&layer.ctx).base_offset, 1);
    let ctx = NativeScalarEccContext(layer).try_into_context(shared).unwrap();
    assert_eq!(ctx.base_offset, 1);
    assert_eq!(ctx.records.base_height, 1);
    assert_eq!(ctx.records.base_adv_record[0][0], (Some(Fp::from(3)), false));
}

#[test]
fn context_stays_shared_while_another_holds_it() {
    let (mut shared, handle) = SharedContext::new(Context::<Fp>::new());
    let other = shared.share(&handle).unwrap();
    assert_eq!(shared.holder_count(), 2);
    shared.borrow_mut(&other).base_offset = 3;
    let layer = NativeScalarEccContext(IntegerContext::new(handle));
    let (shared, layer) = layer.try_into_context(shared).unwrap_err();
    assert_eq!(shared.holder_count(), 2);
    assert_eq!(shared.borrow(&layer.0.ctx).base_offset, 3);
    let (mut shared, layer) = layer.0.try_into_context(shared).unwrap_err();
    assert_eq!(layer.info, RangeInfo::new(COMMON_RANGE_BITS, OVERFLOW_BITS));
    shared.release(other);
    assert_eq!(shared.holder_count(), 1);
    let ctx = layer.into_context(shared);
    assert_eq!(ctx.base_offset, 3);
}

#[test]
fn general_context_releases_its_layers() {
    let (mut shared, handle) = SharedContext::new(Context::<Fp>::new());
    let layers = GeneralScalarEccContext::new(&mut shared, handle);
    assert_eq!(shared.holder_count(), 3);
    assert_eq!(layers.base_integer_ctx.info, RangeInfo::new(COMMON_RANGE_BITS, OVERFLOW_BITS));
    assert_eq!(layers.scalar_integer_ctx.info, layers.base_integer_ctx.info);
    shared.borrow_mut(&layers.base_integer_ctx.ctx).range_offset = 4;
    shared.borrow_mut(&layers.scalar_integer_ctx.ctx).base_offset = 2;
    let ctx = layers.try_into_context(shared).unwrap();
    assert_eq!((ctx.range_offset, ctx.base_offset), (4, 2));
}

#[test]
fn general_context_fails_while_another_holds_it() {
    let (mut shared, handle) = SharedContext::new(Context::<Fp>::new());
    let other = shared.share(&handle).unwrap();
    let layers = GeneralScalarEccContext::new(&mut shared, handle);
    assert_eq!(shared.holder_count(), 4);
    let (mut shared, layers) = layers.try_into_context(shared).unwrap_err();
    assert_eq!(shared.holder_count(), 4);
    shared.release(other);
    assert_eq!(shared.holder_count(), 3);
    let ctx = layers.into_context(shared);
    assert_eq!(ctx, Context::new());
}

#[test]
fn unwrap_of_a_shared_context() {
    let (mut shared, handle) = SharedContext::new(Context::<Fp>::new());
    let second = shared.share(&handle).unwrap();
    let (mut shared, handle) = shared.try_unwrap(handle).unwrap_err();
    shared.release(second);
    let ctx = shared.try_unwrap(handle).unwrap();
    assert_eq!(ctx, Context::new());
}
