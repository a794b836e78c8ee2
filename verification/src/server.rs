use vstd::prelude::*;

use crate::codec::encode_batch_frame;
use crate::codec::encode_sentinel_frame;
use crate::codec::lemma_frame_round_trip;
use crate::codec::spec_encode_frame;
use crate::codec::spec_parse_frame;
use crate::errors::CodecError;
use crate::errors::Error;
use crate::packet::batch_view;
use crate::packet::batch_wf;
use crate::packet::Packet;
use crate::packet::PacketView;
use crate::packet::NANOS_PER_SEC;

verus! {

/// The fate of a rendezvous identifier. It starts `Created`; exactly
/// one transition ever leaves that state, so at most one registration
/// can ever be redeemed against it.
#[derive(Clone, Copy, PartialEq, Eq, Structural, Debug)]
pub enum EndpointState {
    /// Published, not yet redeemed or given up.
    Created,
    /// A peer registered and the endpoint became a live link.
    Redeemed,
    /// The creator dropped the endpoint before any peer registered.
    Abandoned,
    /// A registration arrived but its bootstrap message was malformed.
    Failed,
}

/// What the transport observed on the published identifier: a peer's
/// bootstrap message that carried one outbound handle, or one that
/// could not be understood.
#[derive(Clone, Copy, PartialEq, Eq, Structural, Debug)]
pub enum Registration {
    WellFormed,
    Malformed,
}

/// Everything that can happen to a published identifier.
#[derive(Clone, Copy, PartialEq, Eq, Structural, Debug)]
pub enum EndpointEvent {
    Register(Registration),
    Abandon,
}

/// A registration can only be redeemed while the identifier is still
/// in its initial state.
pub open spec fn can_register(s: EndpointState) -> bool {
    s is Created
}

/// The identifier's next state. Every event consumes a `Created`
/// identifier; nothing moves a consumed one.
pub open spec fn endpoint_step(s: EndpointState, e: EndpointEvent) -> EndpointState {
    if s is Created {
        match e {
            EndpointEvent::Register(Registration::WellFormed) => EndpointState::Redeemed,
            EndpointEvent::Register(Registration::Malformed) => EndpointState::Failed,
            EndpointEvent::Abandon => EndpointState::Abandoned,
        }
    } else {
        s
    }
}

/// Whether `e` is a registration that the identifier in state `s` redeems.
pub open spec fn registration_succeeds(s: EndpointState, e: EndpointEvent) -> bool {
    can_register(s) && e == EndpointEvent::Register(Registration::WellFormed)
}

/// The state after a whole run of events, oldest first.
pub open spec fn endpoint_run(s: EndpointState, events: Seq<EndpointEvent>) -> EndpointState
    decreases events.len(),
{
    if events.len() == 0 {
        s
    } else {
        endpoint_run(endpoint_step(s, events.first()), events.drop_first())
    }
}

/// An identifier that has left its initial state never returns to it:
/// however many further events arrive, no registration succeeds against it.
pub proof fn lemma_consumed_never_registers(
    s: EndpointState,
    events: Seq<EndpointEvent>,
    attempt: EndpointEvent,
)
    requires
        !can_register(s),
    ensures
        !registration_succeeds(endpoint_run(s, events), attempt),
    decreases events.len(),
{
    if events.len() > 0 {
        lemma_consumed_never_registers(endpoint_step(s, events.first()), events.drop_first(), attempt);
    }
}

/// One-shot exclusivity law: the first event against an identifier —
/// a redemption, a malformed registration, or abandonment — consumes
/// it, and no registration attempt after that point ever succeeds.
pub proof fn lemma_one_shot_exclusivity(
    s: EndpointState,
    events: Seq<EndpointEvent>,
    j: int,
    attempt: EndpointEvent,
)
    requires
        can_register(s),
        1 <= j <= events.len(),
    ensures
        !registration_succeeds(endpoint_run(s, events.take(j)), attempt),
{
    let s1 = endpoint_step(s, events.first());
    assert(!can_register(s1));
    assert(events.take(j).first() == events.first());
    lemma_consumed_never_registers(s1, events.take(j).drop_first(), attempt);
}

/// The decision the transport's registry takes when a peer dials the
/// identifier: redeem it from the initial state only; a malformed
/// bootstrap consumes it without redeeming it; a consumed identifier
/// turns every attempt away.
pub fn register_attempt(state: &mut EndpointState, registration: Registration) -> (r: Result<
    (),
    Error,
>)
    ensures
        *final(state) == endpoint_step(*old(state), EndpointEvent::Register(registration)),
        (r is Ok) == registration_succeeds(
            *old(state),
            EndpointEvent::Register(registration),
        ),
        r matches Err(e) ==> e == (if can_register(*old(state)) {
            Error::Protocol
        } else {
            Error::Resource
        }),
{
    match *state {
        EndpointState::Created => match registration {
            Registration::WellFormed => {
                *state = EndpointState::Redeemed;
                Ok(())
            },
            Registration::Malformed => {
                *state = EndpointState::Failed;
                Err(Error::Protocol)
            },
        },
        _ => Err(Error::Resource),
    }
}

/// Giving an identifier up before any peer registered: it can never be
/// dialed successfully afterwards.
pub fn abandon(state: &mut EndpointState)
    ensures
        *final(state) == endpoint_step(*old(state), EndpointEvent::Abandon),
{
    match *state {
        EndpointState::Created => {
            *state = EndpointState::Abandoned;
        },
        _ => {},
    }
}

/// The rendezvous endpoint: a freshly published identifier, redeemable
/// by exactly one peer registration. `accept` consumes the endpoint, so
/// a second redemption is ruled out at the type level as well.
pub struct Server {
    name: String,
    state: Ghost<EndpointState>,
}

impl Server {
    /// The identifier's lifecycle state; a live endpoint is always in
    /// the initial state, because `accept` consumes it on the way out.
    pub closed spec fn state(&self) -> EndpointState {
        self.state@
    }

    /// The published identifier, as the peers must dial it.
    pub closed spec fn name_spec(&self) -> Seq<char> {
        self.name@
    }

    pub open spec fn wf(&self) -> bool {
        can_register(self.state())
    }

    /// Wrap the identifier the platform transport has just published.
    pub fn new(name: String) -> (s: Server)
        ensures
            s.wf(),
            s.name_spec() == name@,
    {
        Server { name, state: Ghost(EndpointState::Created) }
    }

    /// The identifier a peer must be handed, verbatim, to dial in.
    pub fn name(&self) -> (n: &String)
        ensures
            n@ == self.name_spec(),
    {
        &self.name
    }

    /// Redeem the endpoint against the one registration the transport
    /// delivered. Consumes the endpoint either way: on a well-formed
    /// registration it yields the open link with an empty history, on a
    /// malformed bootstrap it fails terminally.
    pub fn accept(self, registration: Registration) -> (r: Result<ConnectedIpc, Error>)
        requires
            self.wf(),
        ensures
            registration is WellFormed ==> (r matches Ok(link) && link.wf() && !link.is_closed()
                && link.batches() == Seq::<Seq<PacketView>>::empty() && link.wire()
                == Seq::<Seq<u8>>::empty()),
            registration is Malformed ==> r == Err::<ConnectedIpc, Error>(Error::Protocol),
    {
        match registration {
            Registration::WellFormed => Ok(
                ConnectedIpc {
                    closed: false,
                    batches: Ghost(Seq::empty()),
                    wire: Ghost(Seq::empty()),
                },
            ),
            Registration::Malformed => Err(Error::Protocol),
        }
    }
}

/// The batched link: an {open, closed} state machine over the
/// established outbound handle. Each accepted operation yields the one
/// byte message the transport must deliver next; the ghost history
/// records what an order-preserving transport lets the receiver see.
pub struct ConnectedIpc {
    closed: bool,
    batches: Ghost<Seq<Seq<PacketView>>>,
    wire: Ghost<Seq<Seq<u8>>>,
}

impl ConnectedIpc {
    /// Whether the sentinel has been sent.
    pub closed spec fn is_closed(&self) -> bool {
        self.closed
    }

    /// The batches handed to `send` so far, oldest first.
    pub closed spec fn batches(&self) -> Seq<Seq<PacketView>> {
        self.batches@
    }

    /// The byte messages handed to the transport so far, oldest first.
    pub closed spec fn wire(&self) -> Seq<Seq<u8>> {
        self.wire@
    }

    /// The frames a receiver of the ordered transport observes: every
    /// batch in order, then the sentinel exactly when the link closed.
    pub open spec fn frames(&self) -> Seq<Option<Seq<PacketView>>> {
        self.batches().map_values(|b: Seq<PacketView>| Option::Some(b)) + if self.is_closed() {
            seq![Option::<Seq<PacketView>>::None]
        } else {
            Seq::<Option<Seq<PacketView>>>::empty()
        }
    }

    /// Protocol invariant: every sent batch was well formed, and the
    /// wire messages are exactly the encodings of the frames.
    pub open spec fn wf(&self) -> bool {
        &&& forall|i: int|
            0 <= i < self.batches().len() ==> batch_wf(#[trigger] self.batches()[i])
        &&& self.wire().len() == self.frames().len()
        &&& forall|i: int|
            0 <= i < self.frames().len() ==> #[trigger] self.wire()[i] == spec_encode_frame(
                self.frames()[i],
            )
    }

    /// Always ready: the link admits every operation at once; any
    /// backpressure lives in the transport and shows only as latency.
    pub fn ready(&self) -> (r: Result<(), Error>)
        ensures
            r == Ok::<(), Error>(()),
    {
        Ok(())
    }

    /// Nothing to flush: the link keeps no client-side buffer.
    pub fn flush(&self) -> (r: Result<(), Error>)
        ensures
            r == Ok::<(), Error>(()),
    {
        Ok(())
    }

    /// Move a batch into the protocol: on an open link and a batch of
    /// well-formed records it yields the data frame to deliver next and
    /// appends the batch to the history; a record whose timestamp
    /// cannot be represented is rejected whole, and a closed link
    /// rejects the call outright.
    #[verifier::loop_isolation(false)]
    pub fn send(&mut self, batch: Vec<Packet>) -> (r: Result<Vec<u8>, Error>)
        requires
            old(self).wf(),
        ensures
            final(self).wf(),
            old(self).is_closed() ==> r == Err::<Vec<u8>, Error>(Error::Closed) && *final(self)
                == *old(self),
            !old(self).is_closed() && !batch_wf(batch_view(batch@)) ==> r == Err::<Vec<u8>, Error>(
                Error::Protocol,
            ) && *final(self) == *old(self),
            !old(self).is_closed() && batch_wf(batch_view(batch@)) ==> (r matches Ok(bytes)
                && bytes@ == spec_encode_frame(Option::Some(batch_view(batch@)))
                && !final(self).is_closed() && final(self).batches() == old(self).batches().push(
                batch_view(batch@),
            ) && final(self).wire() == old(self).wire().push(
                spec_encode_frame(Option::Some(batch_view(batch@))),
            )),
    {
        if self.closed {
            return Err(Error::Closed);
        }
        let mut i: usize = 0;
        while i < batch.len()
            invariant
                i <= batch@.len(),
                forall|j: int| 0 <= j < i ==> #[trigger] batch_view(batch@)[j].wf(),
            decreases batch@.len() - i,
        {
            if batch[i].ts.nanos >= NANOS_PER_SEC {
                proof {
                    assert(batch_view(batch@)[i as int] == batch@[i as int]@);
                    assert(!batch_view(batch@)[i as int].wf());
                }
                return Err(Error::Protocol);
            }
            proof {
                vstd::std_specs::vec::axiom_spec_len(&batch@[i as int].data);
                assert(batch_view(batch@)[i as int] == batch@[i as int]@);
                assert(batch_view(batch@)[i as int].wf());
            }
            i += 1;
        }
        proof {
            assert forall|j: int| 0 <= j < batch_view(batch@).len() implies #[trigger] batch_view(
                batch@,
            )[j].wf() by {}
            assert(batch_wf(batch_view(batch@)));
        }
        let bytes = encode_batch_frame(&batch);
        proof {
            assert(batch_view(batch@).len() <= u64::MAX);
        }
        self.batches = Ghost(self.batches@.push(batch_view(batch@)));
        self.wire = Ghost(self.wire@.push(bytes@));
        proof {
            let oldf = old(self).frames();
            let newf = self.frames();
            assert(newf =~= oldf.push(Option::Some(batch_view(batch@))));
            assert forall|k: int| 0 <= k < newf.len() implies #[trigger] self.wire()[k]
                == spec_encode_frame(newf[k]) by {
                if k < oldf.len() {
                    assert(old(self).wire()[k] == spec_encode_frame(oldf[k]));
                }
            }
        }
        Ok(bytes)
    }

    /// Close the link: on an open link it yields the one sentinel frame
    /// to deliver last and marks the link closed; a second close is
    /// rejected, so at most one sentinel ever leaves.
    pub fn close(&mut self) -> (r: Result<Vec<u8>, Error>)
        requires
            old(self).wf(),
        ensures
            final(self).wf(),
            old(self).is_closed() ==> r == Err::<Vec<u8>, Error>(Error::Closed) && *final(self)
                == *old(self),
            !old(self).is_closed() ==> (r matches Ok(bytes) && bytes@ == spec_encode_frame(
                Option::<Seq<PacketView>>::None,
            ) && final(self).is_closed() && final(self).batches() == old(self).batches()
                && final(self).wire() == old(self).wire().push(
                spec_encode_frame(Option::<Seq<PacketView>>::None),
            )),
    {
        if self.closed {
            return Err(Error::Closed);
        }
        let bytes = encode_sentinel_frame();
        self.closed = true;
        self.wire = Ghost(self.wire@.push(bytes@));
        proof {
            let oldf = old(self).frames();
            let newf = self.frames();
            assert(newf =~= oldf.push(Option::<Seq<PacketView>>::None));
            assert forall|k: int| 0 <= k < newf.len() implies #[trigger] self.wire()[k]
                == spec_encode_frame(newf[k]) by {
                if k < oldf.len() {
                    assert(old(self).wire()[k] == spec_encode_frame(oldf[k]));
                }
            }
        }
        Ok(bytes)
    }
}

/// Sentinel terminality law: on a closed link the delivered messages
/// decode, in order, to exactly the batches handed to `send`, followed
/// by exactly one end-of-stream sentinel, and nothing after it.
pub proof fn lemma_sentinel_terminality(link: &ConnectedIpc)
    requires
        link.wf(),
        link.is_closed(),
    ensures
        link.wire().len() == link.batches().len() + 1,
        forall|i: int|
            0 <= i < link.batches().len() ==> spec_parse_frame(#[trigger] link.wire()[i]) == Ok::<
                Option<Seq<PacketView>>,
                CodecError,
            >(Option::Some(link.batches()[i])),
        spec_parse_frame(link.wire().last()) == Ok::<Option<Seq<PacketView>>, CodecError>(
            Option::<Seq<PacketView>>::None,
        ),
{
    let n = link.batches().len() as int;
    assert(link.frames().len() == n + 1);
    assert forall|i: int| 0 <= i < n implies spec_parse_frame(#[trigger] link.wire()[i]) == Ok::<
        Option<Seq<PacketView>>,
        CodecError,
    >(Option::Some(link.batches()[i])) by {
        assert(link.frames()[i] == Option::Some(link.batches()[i]));
        assert(link.wire()[i] == spec_encode_frame(link.frames()[i]));
        assert(batch_wf(link.batches()[i]));
        lemma_frame_round_trip(Option::Some(link.batches()[i]));
    }
    assert(link.frames()[n] == Option::<Seq<PacketView>>::None);
    assert(link.wire()[n] == spec_encode_frame(Option::<Seq<PacketView>>::None));
    lemma_frame_round_trip(Option::<Seq<PacketView>>::None);
}

} // verus!
