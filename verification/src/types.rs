//! Commitments, prover data and proofs of the root proof system.

use crate::grouping::{GroupKey, ResidualOracle, RootKey};
use crate::root_iop::RootIopBoundCommitment;
use std::sync::Arc;
use vstd::prelude::*;

verus! {

/// The commitment to one oracle.
#[derive(Clone, Copy, Debug)]
pub enum NativeWarpWhirRootCommitment<D> {
    /// A base-field message that was committed alone.
    BaseMessage(D),
    /// One column of a stack of base-field messages.
    BaseMessageShared {
        /// The commitment to the stack.
        root: D,
        /// The column.
        column: usize,
        /// The number of columns.
        width: usize,
    },
    /// An extension-field message that was committed alone.
    ExtensionMessage(D),
}

/// The public commitment to one oracle of the root proof system.
pub type BoundRoot<D> = RootIopBoundCommitment<NativeWarpWhirRootCommitment<D>>;

/// The address of the allocation behind an `Arc`, as `std::sync::Arc::as_ptr`
/// gives it. Nothing is claimed of the result: it depends on the machine.
#[verifier::external_body]
fn allocation_address<P>(data: &Arc<P>) -> usize {
    Arc::as_ptr(data) as usize
}

/// The prover data of a shared commitment, held by all of its columns.
#[derive(Debug)]
pub struct SharedHandle<P> {
    address: usize,
    data: Arc<P>,
}

impl<P> SharedHandle<P> {
    /// The identity is the address of the allocation.
    #[verifier::type_invariant]
    spec fn addressed(self) -> bool {
        Self::locates(self.address, self.data)
    }

    /// The address is that of the allocation behind the `Arc`.
    pub closed spec fn locates(address: usize, data: Arc<P>) -> bool {
        call_ensures(allocation_address::<P>, (&data,), address)
    }

    /// The identity of the allocation.
    pub closed spec fn address(self) -> usize {
        self.address
    }

    /// The prover data.
    pub closed spec fn data(self) -> P {
        *self.data
    }

    /// A handle on prover data. Its identity is that of the allocation.
    pub fn new(data: Arc<P>) -> (r: Self)
        ensures
            r.data() == *data,
            Self::locates(r.address(), data),
    {
        let address: usize = allocation_address(&data);
        SharedHandle { address, data }
    }

    /// Another handle on the same allocation.
    pub fn share(&self) -> (r: Self)
        ensures
            r == *self,
    {
        proof {
            use_type_invariant(self);
        }
        SharedHandle { address: self.address, data: Arc::clone(&self.data) }
    }

    /// The prover data.
    pub fn get(&self) -> (r: &P)
        ensures
            *r == self.data(),
    {
        &self.data
    }
}

impl<'b, P> GroupKey for &'b SharedHandle<P> {
    open spec fn same_group(self, other: Self) -> bool {
        self.address() == other.address()
    }

    proof fn same_group_is_equivalence(a: Self, b: Self, c: Self) {
    }

    fn is_same_group(self, other: Self) -> (r: bool) {
        self.address == other.address
    }
}

/// Prover data of a base-field oracle that was committed alone.
#[derive(Debug)]
pub struct NativeWarpWhirRootBaseProverData<F, C, PB> {
    /// What the backend needs to open the commitment.
    pub prover_data: PB,
    /// The transcript after the commitment.
    pub challenger: C,
    /// The committed message.
    pub message: Vec<F>,
}

/// Prover data of one column of a shared commitment.
#[derive(Debug)]
pub struct NativeWarpWhirRootSharedBaseProverData<F, PS> {
    /// What the backend needs to open the shared commitment.
    pub shared: SharedHandle<PS>,
    /// The column.
    pub column: usize,
    /// The number of columns.
    pub width: usize,
    /// The message in this column.
    pub message: Vec<F>,
}

/// Prover data of an extension-field oracle.
#[derive(Debug)]
pub struct NativeWarpWhirRootExtensionProverData<EF, C, PE> {
    /// What the backend needs to open the commitment.
    pub prover_data: PE,
    /// The transcript after the commitment.
    pub challenger: C,
    /// The committed message.
    pub message: Vec<EF>,
}

/// Prover data of one oracle.
#[derive(Debug)]
pub enum NativeWarpWhirRootProverData<F, EF, C, PB, PS, PE> {
    /// Of a base-field oracle that was committed alone.
    Base(NativeWarpWhirRootBaseProverData<F, C, PB>),
    /// Of one column of a shared commitment.
    BaseShared(NativeWarpWhirRootSharedBaseProverData<F, PS>),
    /// Of an extension-field oracle.
    ExtensionMessage(NativeWarpWhirRootExtensionProverData<EF, C, PE>),
}

/// Prover data with the oracle that it belongs to.
#[derive(Debug)]
pub struct NativeWarpWhirRootOracleProverData<F, EF, C, PB, PS, PE> {
    /// Identifier of the oracle.
    pub oracle_id: usize,
    /// The prover data.
    pub data: NativeWarpWhirRootProverData<F, EF, C, PB, PS, PE>,
}

/// A batched opening: the reduction `RP` of all claims to one combined claim,
/// and the opening `OP` of that claim.
#[derive(Debug)]
pub struct NativeWarpWhirRootBatchedOpeningProof<RP, OP> {
    /// The reduction to one claim.
    pub reduction: RP,
    /// The opening of that claim.
    pub opening: OP,
}

/// A proof of the recorded claims.
#[derive(Debug)]
pub struct NativeWarpWhirRootProof<RP, OP> {
    /// The batched opening.
    pub opening: NativeWarpWhirRootBatchedOpeningProof<RP, OP>,
}

/// The same proof under the name of what it proves: linear openings.
pub type NativeWarpWhirLinearOpeningProof<RP, OP> = NativeWarpWhirRootProof<RP, OP>;

/// The one claim to which a batch of claims is reduced: the combination of the
/// oracles with the coefficients takes the value at the point.
#[derive(Debug)]
pub struct BatchedLinearSigmaOpeningClaim<EF> {
    /// The point.
    pub point: Vec<EF>,
    /// The value.
    pub value: EF,
    /// One coefficient for each oracle.
    pub coeffs: Vec<EF>,
}

/// The message behind one oracle of a batch.
#[derive(Debug)]
pub enum NativeWarpDirectBatchedResidualPoly<'b, F, EF> {
    /// A base-field message.
    Base(&'b Vec<F>),
    /// An extension-field message.
    Extension(&'b Vec<EF>),
}

/// One oracle of a batch as the prover holds it.
pub type NativeWarpBatchedResidualProverOracle<'b, PB, PS, PE> = ResidualOracle<
    &'b PB,
    &'b PE,
    &'b SharedHandle<PS>,
>;

/// One oracle of a batch as the verifier knows it.
pub type NativeWarpBatchedResidualCommitment<D> = ResidualOracle<D, D, RootKey<D>>;

} // verus!
