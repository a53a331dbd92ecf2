//! The in-memory per-chain health snapshot: what the connection
//! supervisor records and the monitoring endpoint serves.

use vstd::prelude::*;

verus! {

/// Per-event health counters of one watcher.
#[derive(Debug)]
pub struct Event {
    pub event: String,
    pub last_update: i64,
    pub update_block: i64,
    pub update_duration: u64,
    pub count: usize,
}

/// Mathematical image of a watcher health record.
#[verifier::ext_equal]
pub ghost struct EventV {
    pub event: Seq<char>,
    pub last_update: int,
    pub update_block: int,
    pub update_duration: int,
    pub count: int,
}

impl View for Event {
    type V = EventV;

    open spec fn view(&self) -> EventV {
        EventV {
            event: self.event@,
            last_update: self.last_update as int,
            update_block: self.update_block as int,
            update_duration: self.update_duration as int,
            count: self.count as int,
        }
    }
}

/// One chain's health snapshot: its tip, when its socket was built, its
/// name, and its watchers' counters.
#[derive(Debug)]
pub struct Monitoring {
    pub current_block: u64,
    pub socket_create_time: i64,
    pub chain_name: String,
    pub events: Vec<Event>,
}

/// Mathematical image of a chain's snapshot.
#[verifier::ext_equal]
pub ghost struct MonitoringV {
    pub current_block: int,
    pub socket_create_time: int,
    pub chain_name: Seq<char>,
    pub events: Seq<EventV>,
}

impl View for Monitoring {
    type V = MonitoringV;

    open spec fn view(&self) -> MonitoringV {
        MonitoringV {
            current_block: self.current_block as int,
            socket_create_time: self.socket_create_time as int,
            chain_name: self.chain_name@,
            events: self.events@.map_values(|e: Event| e@),
        }
    }
}

impl Monitoring {
    /// The empty snapshot a chain starts from.
    pub fn default() -> (r: Self)
        ensures
            r@.current_block == 0,
            r@.socket_create_time == 0,
            r@.chain_name == Seq::<char>::empty(),
            r@.events == Seq::<EventV>::empty(),
    {
        let r = Self {
            current_block: 0,
            socket_create_time: 0,
            chain_name: String::new(),
            events: Vec::new(),
        };
        proof {
            assert(r@.events =~= Seq::<EventV>::empty());
        }
        r
    }
}

/// The whole monitoring snapshot: one entry per chain id.
#[derive(Debug)]
pub struct MonitoringMap {
    pub keys: Vec<u64>,
    pub entries: Vec<Monitoring>,
}

/// Well-formedness: keys and entries line up, and no chain appears twice.
pub open spec fn monitoring_wf(m: &MonitoringMap) -> bool {
    &&& m.keys@.len() == m.entries@.len()
    &&& forall|i: int, j: int| 0 <= i < j < m.keys@.len() ==> m.keys@[i] != m.keys@[j]
}

impl MonitoringMap {
    /// An empty snapshot.
    pub fn new() -> (r: Self)
        ensures
            monitoring_wf(&r),
            r.keys@.len() == 0,
    {
        MonitoringMap { keys: Vec::new(), entries: Vec::new() }
    }

    /// What the connection supervisor records after a successful tip
    /// fetch: the chain's entry takes the new tip, socket timestamp and
    /// name, keeping its watcher counters; an unknown chain gets a fresh
    /// entry.
    pub fn record_block(
        &mut self,
        chain_id: u64,
        current_block: u64,
        socket_create_time: i64,
        chain_name: String,
    )
        requires
            monitoring_wf(old(self)),
        ensures
            monitoring_wf(final(self)),
            final(self).keys@.len() >= old(self).keys@.len(),
            ({
                let found = exists|j: int|
                    0 <= j < old(self).keys@.len() && old(self).keys@[j] == chain_id;
                if found {
                    exists|j: int|
                        {
                            &&& 0 <= j < old(self).keys@.len()
                            &&& old(self).keys@[j] == chain_id
                            &&& final(self).keys@ == old(self).keys@
                            &&& final(self).entries@.map_values(|e: Monitoring| e@)
                                == old(self).entries@.map_values(|e: Monitoring| e@).update(
                                j,
                                MonitoringV {
                                    current_block: current_block as int,
                                    socket_create_time: socket_create_time as int,
                                    chain_name: chain_name@,
                                    events: old(self).entries@.map_values(
                                        |e: Monitoring| e@,
                                    )[j].events,
                                },
                            )
                        }
                } else {
                    &&& final(self).keys@ == old(self).keys@.push(chain_id)
                    &&& final(self).entries@.map_values(|e: Monitoring| e@) == old(
                        self,
                    ).entries@.map_values(|e: Monitoring| e@).push(
                        MonitoringV {
                            current_block: current_block as int,
                            socket_create_time: socket_create_time as int,
                            chain_name: chain_name@,
                            events: Seq::<EventV>::empty(),
                        },
                    )
                }
            }),
    {
        let len = self.keys.len();
        let mut i: usize = 0;
        while i < len
            invariant
                monitoring_wf(self),
                *self == *old(self),
                len == self.keys@.len(),
                i <= len,
                forall|k: int| 0 <= k < i ==> self.keys@[k] != chain_id,
            decreases len - i,
        {
            if self.keys[i] == chain_id {
                let mut taken = Monitoring {
                    current_block: 0,
                    socket_create_time: 0,
                    chain_name: String::new(),
                    events: Vec::new(),
                };
                self.entries.set_and_swap(i, &mut taken);
                let entry = Monitoring {
                    current_block,
                    socket_create_time,
                    chain_name,
                    events: taken.events,
                };
                self.entries.set(i, entry);
                proof {
                    assert(final(self).entries@.map_values(|e: Monitoring| e@) =~= old(
                        self,
                    ).entries@.map_values(|e: Monitoring| e@).update(
                        i as int,
                        MonitoringV {
                            current_block: current_block as int,
                            socket_create_time: socket_create_time as int,
                            chain_name: chain_name@,
                            events: old(self).entries@.map_values(|e: Monitoring| e@)[
                                i as int
                            ].events,
                        },
                    ));
                }
                return ;
            }
            i = i + 1;
        }
        let entry = Monitoring {
            current_block,
            socket_create_time,
            chain_name,
            events: Vec::new(),
        };
        self.keys.push(chain_id);
        self.entries.push(entry);
        proof {
            assert(final(self).entries@.map_values(|e: Monitoring| e@) =~~= old(
                self,
            ).entries@.map_values(|e: Monitoring| e@).push(
                MonitoringV {
                    current_block: current_block as int,
                    socket_create_time: socket_create_time as int,
                    chain_name: chain_name@,
                    events: Seq::<EventV>::empty(),
                },
            ));
        }
    }
}

} // verus!
