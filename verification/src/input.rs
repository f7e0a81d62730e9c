//! The event stream's buffer: bytes arrive in arbitrary chunks, and any
//! byte not consumed while resolving one event is kept for the next parse
//! attempt, so that no input byte is dropped or duplicated across read
//! boundaries.

use vstd::prelude::*;
use crate::event;
use crate::event::{event_ok, event_spec, Event, EventSpec, Key, Parsed};

verus! {

/// The index just after the bytes an event parse consumed.
pub open spec fn spec_next(es: EventSpec) -> int {
    match es {
        EventSpec::EKey(_, n) => n,
        EventSpec::EUnknown(n) => n,
        EventSpec::More => 0,
    }
}

/// Buffers raw input bytes between reads and hands out one structured
/// event at a time.
pub struct Events {
    pending: Vec<u8>,
}

impl Events {
    /// The bytes received but not yet consumed.
    pub closed spec fn spec_pending(&self) -> Seq<u8> {
        self.pending@
    }

    /// Creates an empty event stream buffer.
    pub fn new() -> (r: Events)
        ensures
            r.spec_pending() == Seq::<u8>::empty(),
    {
        Events { pending: Vec::new() }
    }

    /// Appends the bytes of one read to the buffer.
    pub fn feed(&mut self, chunk: &Vec<u8>)
        ensures
            final (self).spec_pending() == old(self).spec_pending() + chunk@,
    {
        let mut k: usize = 0;
        while k < chunk.len()
            invariant
                k <= chunk@.len(),
                self.pending@ == old(self).pending@ + chunk@.take(k as int),
            decreases chunk@.len() - k,
        {
            self.pending.push(chunk[k]);
            proof {
                assert(self.pending@ =~= old(self).pending@ + chunk@.take(k + 1));
            }
            k += 1;
        }
        proof {
            assert(chunk@.take(chunk@.len() as int) =~= chunk@);
        }
    }

    /// Takes the next complete event out of the buffer. A lone escape byte
    /// at the end of a read is an Escape key press; otherwise an event is
    /// returned only once all its bytes have arrived, and exactly those
    /// bytes leave the buffer.
    pub fn next_event(&mut self, at_read_boundary: bool) -> (r: Option<Event>)
        ensures
            ({
                let p = old(self).spec_pending();
                match r {
                    Option::None => final (self).spec_pending() == p && (p.len() == 0 || (!(
                    at_read_boundary && p == seq![0x1Bu8]) && event_spec(p, 0) is More)),
                    Option::Some(e) => if at_read_boundary && p == seq![0x1Bu8] {
                        e == Event::Key(Key::Escape) && final (self).spec_pending() == Seq::<
                            u8,
                        >::empty()
                    } else {
                        p.len() > 0 && event_ok(e, spec_next(event_spec(p, 0)), event_spec(p, 0), p, 0)
                            && final (self).spec_pending() == p.skip(spec_next(event_spec(p, 0)))
                    },
                }
            }),
    {
        if self.pending.len() == 0 {
            return None;
        }
        if at_read_boundary && self.pending.len() == 1 && self.pending[0] == 0x1B {
            proof {
                assert(old(self).spec_pending() =~= seq![0x1Bu8]);
            }
            self.pending = Vec::new();
            return Some(Event::Key(Key::Escape));
        }
        proof {
            if at_read_boundary && old(self).spec_pending() == seq![0x1Bu8] {
                assert(old(self).pending@.len() == 1);
                assert(old(self).pending@[0] == 0x1B);
                assert(false);
            }
        }
        match event::parse_event(&self.pending, 0) {
            Parsed::Found(e, next) => {
                let rest = drop_prefix(&self.pending, next);
                self.pending = rest;
                Some(e)
            },
            Parsed::Incomplete => None,
        }
    }
}

/// The bytes of `v` from index `k` on.
fn drop_prefix(v: &Vec<u8>, k: usize) -> (out: Vec<u8>)
    requires
        k <= v@.len(),
    ensures
        out@ == v@.skip(k as int),
{
    let mut out: Vec<u8> = Vec::new();
    let mut i: usize = k;
    while i < v.len()
        invariant
            k <= i <= v@.len(),
            out@ == v@.subrange(k as int, i as int),
        decreases v@.len() - i,
    {
        out.push(v[i]);
        proof {
            assert(out@ =~= v@.subrange(k as int, i + 1));
        }
        i += 1;
    }
    proof {
        assert(out@ =~= v@.skip(k as int));
    }
    out
}

} // verus!
