//! Contexts: the ledger with its cursors, and the layers that share one.

use vstd::prelude::*;
use crate::layout::COMMON_RANGE_BITS;
use crate::ledger::Ledger;
use crate::records::Records;

verus! {

/// Extra bits that the most significant limb of a foreign-field element
/// may have, unless a context is made with its own options.
pub const OVERFLOW_BITS: u64 = 6;

/// A ledger with the next free step of each unit.
#[derive(Debug, PartialEq, Eq)]
pub struct Context<N> {
    pub records: Records<N>,
    pub base_offset: usize,
    pub range_offset: usize,
}

/// The decimal digit `d` as a character.
pub open spec fn digit(d: nat) -> char {
    (48 + d) as u8 as char
}

/// The decimal numeral of `n`, without sign or leading zeros.
pub open spec fn decimal(n: nat) -> Seq<char>
    decreases n,
{
    if n < 10 {
        seq![digit(n)]
    } else {
        decimal(n / 10).push(digit(n % 10))
    }
}

/// The text that names the two cursors.
pub open spec fn offsets_text(range_offset: nat, base_offset: nat) -> Seq<char> {
    "(range_offset: "@ + decimal(range_offset) + ", base_offset: "@ + decimal(base_offset)
        + ")"@
}

/// Writes the two cursors out with `format!`. The result is the text
/// around the two numbers as given here, and each number as `Display`
/// writes a `usize`: in decimal digits, without sign or leading zeros.
#[verifier::external_body]
fn format_offsets(range_offset: usize, base_offset: usize) -> (text: String)
    ensures
        text@ == offsets_text(range_offset as nat, base_offset as nat),
{
    format!("(range_offset: {}, base_offset: {})", range_offset, base_offset)
}

impl<N> Context<N> {
    /// Names the two cursors, the range unit's first.
    pub fn to_string(&self) -> (text: String)
        ensures
            text@ == offsets_text(self.range_offset as nat, self.base_offset as nat),
    {
        format_offsets(self.range_offset, self.base_offset)
    }
}

impl<N: Copy> Context<N> {
    /// A context with an empty ledger and both cursors at step 0.
    pub fn new() -> (ctx: Self)
        ensures
            ctx.records@ == Ledger::<N>::empty(),
            ctx.records@.wf(),
            ctx.base_offset == 0,
            ctx.range_offset == 0,
    {
        Context { records: Records::new(), base_offset: 0, range_offset: 0 }
    }
}

/// How a foreign-field element is cut into limbs.
#[derive(Clone, Copy, Debug, PartialEq, Eq, Structural)]
pub struct RangeInfo {
    /// Width in bits of every limb but the most significant.
    pub common_range_bits: u64,
    /// Extra bits that the most significant limb may have.
    pub overflow_bits: u64,
}

impl RangeInfo {
    pub fn new(common_range_bits: u64, overflow_bits: u64) -> (info: Self)
        ensures
            info == (RangeInfo { common_range_bits, overflow_bits }),
    {
        RangeInfo { common_range_bits, overflow_bits }
    }
}

/// A claim on a shared context. Whoever has one holds the context; a claim
/// comes from `SharedContext::new` or `SharedContext::share` only.
#[derive(Debug)]
pub struct ContextHandle {
    claim: (),
}

/// A context that several layers hold at once, with the number of claims
/// on it. The context is given back only to its last holder.
#[derive(Debug)]
pub struct SharedContext<N> {
    ctx: Context<N>,
    holders: usize,
}

impl<N> SharedContext<N> {
    /// The context that is shared.
    pub closed spec fn context(&self) -> Context<N> {
        self.ctx
    }

    /// The number of claims on the context.
    pub closed spec fn holders(&self) -> nat {
        self.holders as nat
    }

    /// Puts `ctx` under shared ownership, with one claim on it.
    pub fn new(ctx: Context<N>) -> (shared: (Self, ContextHandle))
        ensures
            shared.0.context() == ctx,
            shared.0.holders() == 1,
    {
        (SharedContext { ctx, holders: 1 }, ContextHandle { claim: () })
    }

    /// Counts the claims on the context.
    pub fn holder_count(&self) -> (count: usize)
        ensures
            count == self.holders(),
    {
        self.holders
    }

    /// Makes one more claim on the context, or none where the count of
    /// claims cannot grow.
    pub fn share(&mut self, holder: &ContextHandle) -> (claim: Option<ContextHandle>)
        ensures
            final(self).context() == old(self).context(),
            claim is Some <==> old(self).holders() < usize::MAX,
            final(self).holders() == old(self).holders() + (if claim is Some {
                1nat
            } else {
                0nat
            }),
    {
        if self.holders < usize::MAX {
            self.holders = self.holders + 1;
            Some(ContextHandle { claim: () })
        } else {
            None
        }
    }

    /// Gives up a claim on the context.
    pub fn release(&mut self, claim: ContextHandle)
        requires
            old(self).holders() >= 1,
        ensures
            final(self).context() == old(self).context(),
            final(self).holders() == old(self).holders() - 1,
    {
        self.holders = self.holders - 1;
    }

    /// Reads the shared context.
    pub fn borrow(&self, holder: &ContextHandle) -> (ctx: &Context<N>)
        ensures
            *ctx == self.context(),
    {
        &self.ctx
    }

    /// Hands out the shared context for writing. The claims stay as they
    /// are.
    pub fn borrow_mut(&mut self, holder: &ContextHandle) -> (ctx: &mut Context<N>)
        ensures
            *ctx == old(self).context(),
            final(self).context() == *final(ctx),
            final(self).holders() == old(self).holders(),
    {
        &mut self.ctx
    }

    /// Takes the context out of shared ownership. This succeeds if and
    /// only if `claim` is the only claim left; otherwise the shared
    /// context and the claim come back as they were.
    pub fn try_unwrap(self, claim: ContextHandle) -> (taken: Result<
        Context<N>,
        (SharedContext<N>, ContextHandle),
    >)
        ensures
            taken is Ok <==> self.holders() == 1,
            match taken {
                Ok(ctx) => ctx == self.context(),
                Err(back) => back.0 == self,
            },
    {
        if self.holders == 1 {
            Ok(self.ctx)
        } else {
            Err((self, claim))
        }
    }
}

/// A layer for the arithmetic of one foreign field over a shared context.
#[derive(Debug)]
pub struct IntegerContext {
    pub ctx: ContextHandle,
    pub info: RangeInfo,
}

impl IntegerContext {
    /// A layer that cuts its elements into limbs of the common width, with
    /// `OVERFLOW_BITS` extra bits for the most significant limb.
    pub fn new(ctx: ContextHandle) -> (layer: Self)
        ensures
            layer.ctx == ctx,
            layer.info == (RangeInfo {
                common_range_bits: COMMON_RANGE_BITS,
                overflow_bits: OVERFLOW_BITS,
            }),
    {
        Self::new_with_options(ctx, COMMON_RANGE_BITS, OVERFLOW_BITS)
    }

    /// A layer with its own limb width and its own extra bits.
    pub fn new_with_options(ctx: ContextHandle, common_range_bits: u64, overflow_bits: u64) -> (layer:
        Self)
        ensures
            layer.ctx == ctx,
            layer.info == (RangeInfo { common_range_bits, overflow_bits }),
    {
        IntegerContext { ctx, info: RangeInfo::new(common_range_bits, overflow_bits) }
    }

    /// Ends the layer and takes the context out of shared ownership. The
    /// layer has to be the only holder that is left.
    pub fn into_context<N>(self, shared: SharedContext<N>) -> (ctx: Context<N>)
        requires
            shared.holders() == 1,
        ensures
            ctx == shared.context(),
    {
        shared.ctx
    }

    /// Ends the layer and takes the context out of shared ownership, if
    /// and only if the layer is the only holder that is left. Otherwise the
    /// shared context and the layer come back as they were.
    pub fn try_into_context<N>(self, shared: SharedContext<N>) -> (taken: Result<
        Context<N>,
        (SharedContext<N>, IntegerContext),
    >)
        ensures
            taken is Ok <==> shared.holders() == 1,
            match taken {
                Ok(ctx) => ctx == shared.context(),
                Err(back) => back.0 == shared && back.1 == self,
            },
    {
        let info = self.info;
        match shared.try_unwrap(self.ctx) {
            Ok(ctx) => Ok(ctx),
            Err(back) => Err((back.0, IntegerContext { ctx: back.1, info })),
        }
    }
}

/// The layer for a curve whose scalar field is the circuit's own field:
/// one foreign field, the curve's base field.
#[derive(Debug)]
pub struct NativeScalarEccContext(pub IntegerContext);

impl NativeScalarEccContext {
    /// Ends the layer and takes the context out of shared ownership. The
    /// layer has to be the only holder that is left.
    pub fn into_context<N>(self, shared: SharedContext<N>) -> (ctx: Context<N>)
        requires
            shared.holders() == 1,
        ensures
            ctx == shared.context(),
    {
        self.0.into_context(shared)
    }

    /// Ends the layer and takes the context out of shared ownership, if
    /// and only if the layer is the only holder that is left. Otherwise the
    /// shared context and the layer come back as they were.
    pub fn try_into_context<N>(self, shared: SharedContext<N>) -> (taken: Result<
        Context<N>,
        (SharedContext<N>, NativeScalarEccContext),
    >)
        ensures
            taken is Ok <==> shared.holders() == 1,
            match taken {
                Ok(ctx) => ctx == shared.context(),
                Err(back) => back.0 == shared && back.1 == self,
            },
    {
        match self.0.try_into_context(shared) {
            Ok(ctx) => Ok(ctx),
            Err(back) => Err((back.0, NativeScalarEccContext(back.1))),
        }
    }
}

/// The layers for a curve with both fields foreign: one for its base
/// field, one for its scalar field, and a claim for the circuit's own
/// field, all on one shared context.
#[derive(Debug)]
pub struct GeneralScalarEccContext {
    pub base_integer_ctx: IntegerContext,
    pub scalar_integer_ctx: IntegerContext,
    pub native_ctx: ContextHandle,
}

impl GeneralScalarEccContext {
    /// The number of claims that the layers of one such context hold.
    pub open spec fn claims() -> nat {
        3
    }

    /// Makes the three layers over `shared`. The claim `ctx` becomes the
    /// claim of the circuit's own field; each foreign field gets a claim
    /// of its own.
    pub fn new<N>(shared: &mut SharedContext<N>, ctx: ContextHandle) -> (layers: Self)
        requires
            old(shared).holders() + 2 <= usize::MAX,
        ensures
            final(shared).context() == old(shared).context(),
            final(shared).holders() == old(shared).holders() + 2,
            layers.base_integer_ctx.info == (RangeInfo {
                common_range_bits: COMMON_RANGE_BITS,
                overflow_bits: OVERFLOW_BITS,
            }),
            layers.scalar_integer_ctx.info == layers.base_integer_ctx.info,
    {
        shared.holders = shared.holders + 2;
        GeneralScalarEccContext {
            base_integer_ctx: IntegerContext::new(ContextHandle { claim: () }),
            scalar_integer_ctx: IntegerContext::new(ContextHandle { claim: () }),
            native_ctx: ctx,
        }
    }

    /// Ends the layers and takes the context out of shared ownership.
    /// Nobody else may hold the context.
    pub fn into_context<N>(self, shared: SharedContext<N>) -> (ctx: Context<N>)
        requires
            shared.holders() == Self::claims(),
        ensures
            ctx == shared.context(),
    {
        let mut shared = shared;
        shared.release(self.base_integer_ctx.ctx);
        shared.release(self.scalar_integer_ctx.ctx);
        IntegerContext::new(self.native_ctx).into_context(shared)
    }

    /// Ends the layers and takes the context out of shared ownership, if
    /// and only if nobody else holds the context. Otherwise the shared
    /// context and the layers come back as they were.
    pub fn try_into_context<N>(self, shared: SharedContext<N>) -> (taken: Result<
        Context<N>,
        (SharedContext<N>, GeneralScalarEccContext),
    >)
        ensures
            taken is Ok <==> shared.holders() == Self::claims(),
            match taken {
                Ok(ctx) => ctx == shared.context(),
                Err(back) => back.0 == shared && back.1 == self,
            },
    {
        if shared.holder_count() == 3 {
            Ok(self.into_context(shared))
        } else {
            Err((shared, self))
        }
    }
}

} // verus!
