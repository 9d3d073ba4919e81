//! The prover's side of a Fiat-Shamir transcript: challenges come out of it,
//! proof points go into it, in an order that a verifier replays.

use vstd::prelude::*;

use crate::curve::CurveAffine;
use crate::field::Scalar;

verus! {

/// One completed operation on a transcript.
#[derive(Debug)]
pub enum Event<C: CurveAffine> {
    /// A challenge was squeezed out, with this value.
    Challenge(C::Scalar),
    /// This point was written.
    Point(C),
}

impl<C: CurveAffine> Clone for Event<C> {
    fn clone(&self) -> (r: Self)
        ensures
            r == *self,
    {
        *self
    }
}

impl<C: CurveAffine> Copy for Event<C> {

}

/// A transcript that a prover writes to.
///
/// A transcript is described by the operations completed on it and by the
/// challenge it would give next, which depends on its state alone. A
/// verified implementation says what both are for its own state. The
/// defaults describe no transcript that can be written to; they stand in for
/// implementations outside verified code, which have no way to say it.
pub trait TranscriptWrite<C: CurveAffine> {
    /// What a failed write reports.
    type Error;

    /// The operations completed so far, oldest first.
    open spec fn events(&self) -> Seq<Event<C>> {
        Seq::empty()
    }

    /// The challenge that the next squeeze gives.
    open spec fn next_challenge(&self) -> C::Scalar {
        C::Scalar::zero_spec()
    }

    /// Squeezes a challenge out of the transcript.
    fn squeeze_challenge_scalar(&mut self) -> (v: C::Scalar)
        ensures
            v == old(self).next_challenge(),
            final(self).events() == old(self).events().push(Event::Challenge(v)),
    ;

    /// Writes a point to the transcript. A write that fails completes
    /// nothing: the operations completed so far stay as they were.
    fn write_point(&mut self, point: C) -> (r: Result<(), Self::Error>)
        ensures
            r is Ok ==> final(self).events() == old(self).events().push(Event::Point(point)),
            r is Err ==> final(self).events() == old(self).events(),
    ;
}

/// The points among `events`, in their order.
pub open spec fn points_spec<C: CurveAffine>(events: Seq<Event<C>>) -> Seq<C>
    decreases events.len(),
{
    if events.len() == 0 {
        Seq::empty()
    } else {
        match events.last() {
            Event::Point(p) => points_spec(events.drop_last()).push(p),
            Event::Challenge(_) => points_spec(events.drop_last()),
        }
    }
}

/// What a [`MemoryTranscript`] reports when it holds as many entries as it
/// may.
#[derive(Clone, Copy, Debug, PartialEq, Eq, Structural)]
pub struct TranscriptFull;

/// A transcript kept in memory. Its challenges are fixed in advance: it hands
/// out `script` in order, and zero once the script is used up. It keeps every
/// operation in `log`, and refuses a point when the log holds `capacity`
/// entries.
pub struct MemoryTranscript<C: CurveAffine> {
    /// The challenges to hand out.
    pub script: Vec<C::Scalar>,
    /// How many of them were handed out.
    pub cursor: usize,
    /// The operations completed so far, oldest first.
    pub log: Vec<Event<C>>,
    /// The number of entries from which on the log takes no more points.
    pub capacity: usize,
}

impl<C: CurveAffine> MemoryTranscript<C> {
    /// Makes an empty transcript with the given challenges and capacity.
    pub fn new(script: Vec<C::Scalar>, capacity: usize) -> (r: Self)
        ensures
            r.script@ == script@,
            r.cursor == 0,
            r.log@ == Seq::<Event<C>>::empty(),
            r.capacity == capacity,
    {
        MemoryTranscript { script, cursor: 0, log: Vec::new(), capacity }
    }

    /// Returns the points written so far, in the order of writing.
    pub fn points(&self) -> (r: Vec<C>)
        ensures
            r@ == points_spec(self.log@),
    {
        let mut points: Vec<C> = Vec::new();
        let mut i: usize = 0;
        while i < self.log.len()
            invariant
                i <= self.log.len(),
                points@ == points_spec(self.log@.take(i as int)),
            decreases self.log.len() - i,
        {
            assert(self.log@.take(i + 1).drop_last() =~= self.log@.take(i as int));
            match self.log[i] {
                Event::Point(p) => {
                    points.push(p);
                },
                Event::Challenge(_) => {},
            }
            i += 1;
        }
        assert(self.log@.take(self.log.len() as int) =~= self.log@);
        points
    }
}

impl<C: CurveAffine> TranscriptWrite<C> for MemoryTranscript<C> {
    type Error = TranscriptFull;

    open spec fn events(&self) -> Seq<Event<C>> {
        self.log@
    }

    open spec fn next_challenge(&self) -> C::Scalar {
        if self.cursor < self.script@.len() {
            self.script@[self.cursor as int]
        } else {
            C::Scalar::zero_spec()
        }
    }

    fn squeeze_challenge_scalar(&mut self) -> (v: C::Scalar)
        ensures
            final(self).script == old(self).script,
            final(self).capacity == old(self).capacity,
            final(self).cursor == if old(self).cursor < old(self).script@.len() {
                old(self).cursor + 1
            } else {
                old(self).cursor as int
            },
    {
        let v = if self.cursor < self.script.len() {
            let next = self.script[self.cursor];
            self.cursor = self.cursor + 1;
            next
        } else {
            C::Scalar::zero()
        };
        self.log.push(Event::Challenge(v));
        v
    }

    fn write_point(&mut self, point: C) -> (r: Result<(), Self::Error>)
        ensures
            r is Ok <==> old(self).log@.len() < old(self).capacity,
            r is Err ==> *final(self) == *old(self),
            final(self).script == old(self).script,
            final(self).cursor == old(self).cursor,
            final(self).capacity == old(self).capacity,
    {
        if self.log.len() < self.capacity {
            self.log.push(Event::Point(point));
            Ok(())
        } else {
            Err(TranscriptFull)
        }
    }
}

} // verus!
