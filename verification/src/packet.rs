use vstd::prelude::*;

verus! {

/// Nanoseconds in one second; the `nanos` field of a well-formed
/// timestamp is strictly below this.
pub const NANOS_PER_SEC: u32 = 1_000_000_000;

/// An absolute point in time: whole seconds since a fixed epoch,
/// plus a sub-second remainder in nanoseconds.
#[derive(Clone, Copy, PartialEq, Eq, Structural, Debug)]
pub struct Timestamp {
    pub secs: u64,
    pub nanos: u32,
}

impl Timestamp {
    /// A timestamp is well formed when its nanosecond part has not
    /// spilled into whole seconds.
    pub open spec fn wf(self) -> bool {
        self.nanos < NANOS_PER_SEC
    }

    pub fn new(secs: u64, nanos: u32) -> (t: Timestamp)
        requires
            nanos < NANOS_PER_SEC,
        ensures
            t == (Timestamp { secs, nanos }),
            t.wf(),
    {
        Timestamp { secs, nanos }
    }
}

/// The mathematical model of a record: its timestamp and the
/// sequence of payload bytes.
pub ghost struct PacketView {
    pub ts: Timestamp,
    pub data: Seq<u8>,
}

impl PacketView {
    /// A record can be carried on the wire when its timestamp is well
    /// formed and its payload length fits the length prefix.
    pub open spec fn wf(self) -> bool {
        self.ts.wf() && self.data.len() <= u64::MAX
    }
}

/// The domain record: a timestamp and an opaque byte payload.
#[derive(Debug)]
pub struct Packet {
    pub ts: Timestamp,
    pub data: Vec<u8>,
}

impl View for Packet {
    type V = PacketView;

    open spec fn view(&self) -> PacketView {
        PacketView { ts: self.ts, data: self.data@ }
    }
}

impl Packet {
    pub fn new(ts: Timestamp, data: Vec<u8>) -> (p: Packet)
        ensures
            p@ == (PacketView { ts, data: data@ }),
    {
        Packet { ts, data }
    }

    /// Surrenders the payload; the record ceases to exist.
    pub fn into_data(self) -> (d: Vec<u8>)
        ensures
            d@ == self@.data,
    {
        self.data
    }
}

/// Capability "producible-as-wire-record": any type that can state a
/// timestamp and materialize a payload gains the canonical conversion
/// into the wire record, without touching the encoding logic itself.
pub trait AsIpcPacket {
    /// The timestamp the wire record will carry.
    spec fn timestamp_spec(&self) -> Timestamp;

    /// The payload bytes the wire record will carry.
    spec fn data_spec(&self) -> Seq<u8>;

    fn timestamp(&self) -> (t: &Timestamp)
        ensures
            *t == self.timestamp_spec(),
    ;

    fn data(&self) -> (d: Vec<u8>)
        ensures
            d@ == self.data_spec(),
    ;
}

impl AsIpcPacket for Packet {
    open spec fn timestamp_spec(&self) -> Timestamp {
        self.ts
    }

    open spec fn data_spec(&self) -> Seq<u8> {
        self.data@
    }

    fn timestamp(&self) -> (t: &Timestamp) {
        &self.ts
    }

    fn data(&self) -> (d: Vec<u8>) {
        self.data.clone()
    }
}

/// The transport-only projection of a record: identical fields, used
/// solely while encoding to and decoding from bytes.
#[derive(Debug)]
pub struct IpcPacket {
    pub timestamp: Timestamp,
    pub data: Vec<u8>,
}

impl View for IpcPacket {
    type V = PacketView;

    open spec fn view(&self) -> PacketView {
        PacketView { ts: self.timestamp, data: self.data@ }
    }
}

impl IpcPacket {
    /// The canonical conversion from any producible-as-wire-record
    /// source; clones the payload because the source is only borrowed.
    pub fn from_source<T: AsIpcPacket>(v: &T) -> (p: IpcPacket)
        ensures
            p@ == (PacketView { ts: v.timestamp_spec(), data: v.data_spec() }),
    {
        IpcPacket { timestamp: *v.timestamp(), data: v.data() }
    }

}

/// Conversion back into a record: takes ownership of the wire record's
/// fields, no further copy.
impl From<IpcPacket> for Packet {
    fn from(v: IpcPacket) -> (p: Packet) {
        Packet { ts: v.timestamp, data: v.data }
    }
}

impl vstd::std_specs::convert::FromSpecImpl<IpcPacket> for Packet {
    open spec fn obeys_from_spec() -> bool {
        true
    }

    open spec fn from_spec(v: IpcPacket) -> Packet {
        Packet { ts: v.timestamp, data: v.data }
    }
}

/// The batch of records `b`, as the sequence of their models.
pub open spec fn batch_view(b: Seq<Packet>) -> Seq<PacketView> {
    b.map_values(|p: Packet| p@)
}

/// Every record of the batch can be carried on the wire, and the
/// batch itself fits the count prefix.
pub open spec fn batch_wf(ps: Seq<PacketView>) -> bool {
    ps.len() <= u64::MAX && forall|i: int| 0 <= i < ps.len() ==> #[trigger] ps[i].wf()
}

} // verus!
