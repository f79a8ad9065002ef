//! Running procedures over secrets.
//!
//! A procedure works on the secrets at its input locations and leaves its
//! results at its output locations. The procedures themselves are not part of
//! this library: the embedding program looks one up and runs it on the inputs
//! that [`inputs`] hands out, and [`outputs`] puts away what it made. Secrets
//! go from vault to vault; only what the procedure declares public is handed
//! to the caller.

use vstd::prelude::*;
use crate::buffer::Buffer;
use crate::cipher::MESSAGE_LIMIT;
use crate::error::EngineError;
use crate::ids::{Location, RecordHint};
use crate::router::{Router, RouterView};

verus! {

/// What a procedure made.
pub struct Products {
    /// The secrets, one for each output location, in order.
    pub secrets: Vec<Buffer>,
    /// What may be handed to the caller.
    pub public: Vec<u8>,
}

/// A place for a result of a procedure.
pub struct Output {
    pub location: Location,
    pub hint: RecordHint,
}

/// The secrets of `products`.
pub open spec fn secrets_of(products: Products) -> Seq<Seq<u8>> {
    products.secrets@.map_values(|secret: Buffer| secret@)
}

/// Whether `trace` are the states that a router goes through while the
/// secrets are written to the outputs, one after the other.
pub open spec fn wrote(trace: Seq<RouterView>, outputs: Seq<Output>, secrets: Seq<Seq<u8>>) -> bool {
    &&& trace.len() == outputs.len() + 1
    &&& secrets.len() == outputs.len()
    &&& forall|i: int|
        0 <= i < outputs.len() ==> (#[trigger] trace[i]).writes(
            outputs[i].location@,
            secrets[i],
            outputs[i].hint@,
            trace[i + 1],
        )
}

/// Whether the secrets can be put away at the outputs: there is one secret
/// for each output, and none is too long to be encrypted.
pub open spec fn storable(outputs: Seq<Output>, secrets: Seq<Seq<u8>>) -> bool {
    &&& secrets.len() == outputs.len()
    &&& forall|i: int| 0 <= i < secrets.len() ==> (#[trigger] secrets[i]).len() < MESSAGE_LIMIT
}

/// Reads the secrets at the input locations of a procedure, for the client
/// that operations go to. A location without a record gives an empty buffer.
/// The client has to be alive, and every record has to unseal: the first that
/// does not gives the error.
pub fn inputs(router: &Router, locations: &[Location]) -> (result: Result<Vec<Buffer>, EngineError>)
    requires
        router.wf(),
    ensures
        match result {
            Ok(secrets) => {
                &&& router@.targeted()
                &&& secrets@.len() == locations@.len()
                &&& forall|i: int|
                    0 <= i < locations@.len() ==> router@.secret(
                        router@.target,
                        (#[trigger] locations@[i])@,
                    ) == Ok::<Seq<u8>, EngineError>(secrets@[i]@)
            },
            Err(e) => if !router@.targeted() {
                e == EngineError::ClientNotFound
            } else {
                exists|i: int|
                    {
                        &&& 0 <= i < locations@.len()
                        &&& router@.secret(router@.target, (#[trigger] locations@[i])@) == Err::<
                            Seq<u8>,
                            EngineError,
                        >(e)
                        &&& forall|j: int|
                            0 <= j < i ==> router@.secret(
                                router@.target,
                                (#[trigger] locations@[j])@,
                            ) is Ok
                    }
            },
        },
{
    if !router.targeted() {
        return Err(EngineError::ClientNotFound);
    }
    let mut secrets: Vec<Buffer> = Vec::new();
    let mut i: usize = 0;
    while i < locations.len()
        invariant
            router.wf(),
            router@.targeted(),
            i <= locations@.len(),
            secrets@.len() == i,
            forall|j: int|
                0 <= j < i ==> router@.secret(router@.target, (#[trigger] locations@[j])@) == Ok::<
                    Seq<u8>,
                    EngineError,
                >(secrets@[j]@),
        decreases locations@.len() - i,
    {
        match router.read_for_target(&locations[i]) {
            Ok(secret) => {
                secrets.push(secret);
            },
            Err(e) => {
                return Err(e);
            },
        }
        i += 1;
    }
    Ok(secrets)
}

/// Puts away what a procedure made, for the client that operations go to, and
/// hands back what is public.
///
/// - Where the procedure failed, the failure is handed on with its kind, and
///   nothing is changed.
/// - Where the client is not alive, or the secrets do not match the outputs or
///   are too long to be encrypted, nothing is changed either.
/// - Else every secret is written to its output, in order.
#[verifier::loop_isolation(false)]
pub fn outputs(router: &mut Router, outcome: Result<Products, u32>, places: &[Output]) -> (result:
    Result<Vec<u8>, EngineError>)
    requires
        old(router).wf(),
    ensures
        final(router).wf(),
        match outcome {
            Err(kind) => result == Err::<Vec<u8>, EngineError>(EngineError::ProcedureFailed(kind))
                && final(router)@ == old(router)@,
            Ok(products) => match result {
                Ok(public) => {
                    &&& public@ == products.public@
                    &&& old(router)@.targeted()
                    &&& storable(places@, secrets_of(products))
                    &&& exists|trace: Seq<RouterView>|
                        {
                            &&& #[trigger] wrote(trace, places@, secrets_of(products))
                            &&& trace[0] == old(router)@
                            &&& trace.last() == final(router)@
                        }
                },
                Err(e) => {
                    &&& final(router)@ == old(router)@
                    &&& if !old(router)@.targeted() {
                        e == EngineError::ClientNotFound
                    } else {
                        e == EngineError::InvalidArgument && !storable(
                            places@,
                            secrets_of(products),
                        )
                    }
                },
            },
        },
{
    let products = match outcome {
        Ok(products) => products,
        Err(kind) => {
            return Err(EngineError::ProcedureFailed(kind));
        },
    };
    if !router.targeted() {
        return Err(EngineError::ClientNotFound);
    }
    if products.secrets.len() != places.len() {
        return Err(EngineError::InvalidArgument);
    }
    let ghost secrets = secrets_of(products);
    let mut k: usize = 0;
    while k < products.secrets.len()
        invariant
            k <= products.secrets@.len(),
            secrets == secrets_of(products),
            forall|j: int| 0 <= j < k ==> (#[trigger] secrets[j]).len() < MESSAGE_LIMIT,
        decreases products.secrets@.len() - k,
    {
        if products.secrets[k].len() as u64 >= MESSAGE_LIMIT {
            assert(secrets[k as int] == products.secrets@[k as int]@);
            return Err(EngineError::InvalidArgument);
        }
        assert(secrets[k as int] == products.secrets@[k as int]@);
        k += 1;
    }
    let ghost mut trace: Seq<RouterView> = seq![router@];
    let mut i: usize = 0;
    while i < places.len()
        invariant
            router.wf(),
            router@.targeted(),
            i <= places@.len(),
            secrets == secrets_of(products),
            storable(places@, secrets),
            trace.len() == i + 1,
            trace[0] == old(router)@,
            trace.last() == router@,
            forall|j: int|
                0 <= j < i ==> (#[trigger] trace[j]).writes(
                    places@[j].location@,
                    secrets[j],
                    places@[j].hint@,
                    trace[j + 1],
                ),
        decreases places@.len() - i,
    {
        let ghost before = trace;
        assert(secrets[i as int] == products.secrets@[i as int]@);
        let written = router.write_to_vault(
            &places[i].location,
            products.secrets[i].borrow(),
            places[i].hint,
        );
        assert(written is Ok);
        proof {
            trace = before.push(router@);
            assert forall|j: int| 0 <= j < i + 1 implies (#[trigger] trace[j]).writes(
                places@[j].location@,
                secrets[j],
                places@[j].hint@,
                trace[j + 1],
            ) by {
                if j < i {
                    assert(trace[j] == before[j]);
                    assert(trace[j + 1] == before[j + 1]);
                }
            }
        }
        i += 1;
    }
    assert(wrote(trace, places@, secrets));
    Ok(products.public)
}

} // verus!
