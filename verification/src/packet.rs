//! Packets and the combined inputs a synchronizer selects.

use vstd::prelude::*;

use crate::version::DataVersion;

verus! {

/// One timestamped unit of data on an edge. The slot holding a packet owns
/// it exclusively; ownership moves into the consuming invocation.
#[derive(Debug)]
pub struct Packet<T> {
    pub data: T,
    pub version: DataVersion,
}

impl<T> Packet<T> {
    pub fn new(data: T, version: DataVersion) -> (p: Packet<T>)
        ensures
            p.version == version,
            p.data == data,
    {
        Packet { data, version }
    }
}

/// The synchronized bundle delivered to a node with two input slots.
/// A member is `None` when the synchronizer resolved that slot to "missing".
pub struct PacketSet2<T1, T2> {
    c1: Option<Packet<T1>>,
    c2: Option<Packet<T2>>,
}

impl<T1, T2> PacketSet2<T1, T2> {
    pub closed spec fn spec_c1(self) -> Option<Packet<T1>> {
        self.c1
    }

    pub closed spec fn spec_c2(self) -> Option<Packet<T2>> {
        self.c2
    }

    pub fn new(c1: Option<Packet<T1>>, c2: Option<Packet<T2>>) -> (s: PacketSet2<T1, T2>)
        ensures
            s.spec_c1() == c1,
            s.spec_c2() == c2,
    {
        PacketSet2 { c1, c2 }
    }

    /// Moves the first member out of the set.
    pub fn c1_owned(&mut self) -> (p: Option<Packet<T1>>)
        ensures
            p == old(self).spec_c1(),
            final(self).spec_c1() is None,
            final(self).spec_c2() == old(self).spec_c2(),
    {
        self.c1.take()
    }

    /// Moves the second member out of the set.
    pub fn c2_owned(&mut self) -> (p: Option<Packet<T2>>)
        ensures
            p == old(self).spec_c2(),
            final(self).spec_c2() is None,
            final(self).spec_c1() == old(self).spec_c1(),
    {
        self.c2.take()
    }
}

} // verus!
