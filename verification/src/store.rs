//! The in-memory registry: devices keyed by their GB code, streams keyed
//! by their stream id, and the reverse index from GB code to the active
//! stream ids of that device, with the invariants that tie them together.
use crate::assoc::{
    find_idx_str, find_idx_u32, find_val_u32, has_key, keys_unique, lemma_get_at_index,
    lemma_get_push, lemma_get_remove, lemma_get_some_iff_has_key, lemma_get_update,
    lemma_unique_push, spec_get,
};
use crate::config::Config;
use crate::ext::uuid_simple_upper;
use vstd::prelude::*;

verus! {

/// First stream id of the playback range; live ids stay below it so that
/// every stream id is process-unique.
pub const REPLAY_ID_BASE: u32 = 0x8000_0000;

/// A channel of a device, as reported in a catalog. Coordinates are kept
/// as the decimal text the device sent.
#[derive(Debug)]
pub struct SipSubDeviceInfo {
    pub sub_device_id: String,
    pub name: String,
    pub manufacturer: String,
    pub model: String,
    pub owner: String,
    pub civil_code: String,
    pub block: String,
    pub address: String,
    pub parental: u32,
    pub parent_id: String,
    pub register_way: u32,
    pub secrecy: u32,
    pub ip_address: String,
    pub port: u16,
    pub password: String,
    pub status: String,
    pub longitude: String,
    pub latitude: String,
    pub ptz_type: u32,
}

/// A registered device. The peer address is kept as text; the TCP write
/// side, when the device registered over TCP, is a token the surrounding
/// program maps to the connection.
#[derive(Debug)]
pub struct SipDeviceInfo {
    pub branch: String,
    pub udp_client_addr: String,
    pub tcp_stream_writer: Option<u64>,
    pub ts: u32,
    pub sub_devices: Option<Vec<SipSubDeviceInfo>>,
}

/// An active or pending media dialog.
#[derive(Debug)]
pub struct GbStreamInfo {
    pub gb_code: String,
    pub caller_id: String,
    pub from_tag: String,
    pub to_tag: String,
    pub stream_server_ip: String,
    pub stream_server_port: u16,
    pub ts: u32,
}

/// The fields of a device a handler needs to reach it.
#[derive(Debug)]
pub struct DeviceInfo {
    pub branch: String,
    pub socket_addr: String,
    pub tcp_stream: Option<u64>,
}

/// The media endpoint of a stream.
#[derive(Debug)]
pub struct StreamInfo {
    pub gb_code: String,
    pub stream_server_ip: String,
    pub stream_server_port: u16,
}

/// What `invite` hands back: `success` says whether the device was
/// already playing before this call.
#[derive(Debug)]
pub struct InviteResult {
    pub success: bool,
    pub channel_id: String,
    pub stream_id: u32,
    pub branch: String,
    pub socket_addr: String,
    pub tcp_stream: Option<u64>,
}

/// What `bye` hands back: `success` says whether this was the last stream
/// of the device, so a BYE must go out on the wire.
#[derive(Debug)]
pub struct ByeResult {
    pub success: bool,
    pub caller_id: String,
    pub from_tag: String,
    pub to_tag: String,
    pub branch: String,
    pub socket_addr: String,
    pub tcp_stream: Option<u64>,
    pub stream_server_ip: String,
    pub stream_server_port: u16,
}

/// No value occurs twice.
pub open spec fn nodup_u32(l: Seq<u32>) -> bool {
    forall|a: int, b: int| 0 <= a < b < l.len() ==> l[a] != l[b]
}

/// Removing the one occurrence of `x` from a duplicate-free list keeps
/// every other value and stays duplicate-free.
pub proof fn lemma_list_remove_value(l: Seq<u32>, p: int, x: u32)
    requires
        0 <= p < l.len(),
        l[p] == x,
        nodup_u32(l),
    ensures
        ({
            let r = l.remove(p);
            &&& r.len() == l.len() - 1
            &&& !r.contains(x)
            &&& forall|y: u32| y != x ==> ((#[trigger] r.contains(y)) == l.contains(y))
            &&& nodup_u32(r)
        }),
{
    let r = l.remove(p);
    assert(!r.contains(x)) by {
        if r.contains(x) {
            let w = choose|w: int| 0 <= w < r.len() && r[w] == x;
            let w0 = if w < p {
                w
            } else {
                w + 1
            };
            assert(r[w] == l[w0]);
            assert(false);
        }
    }
    assert forall|y: u32| y != x implies ((#[trigger] r.contains(y)) == l.contains(y)) by {
        if l.contains(y) {
            let w = choose|w: int| 0 <= w < l.len() && l[w] == y;
            let wn = if w < p {
                w
            } else {
                w - 1
            };
            assert(r[wn] == l[w]);
            assert(r.contains(y));
        }
        if r.contains(y) {
            let w = choose|w: int| 0 <= w < r.len() && r[w] == y;
            let w0 = if w < p {
                w
            } else {
                w + 1
            };
            assert(l[w0] == r[w]);
            assert(l.contains(y));
        }
    }
    assert(nodup_u32(r)) by {
        assert forall|a: int, b: int| 0 <= a < b < r.len() implies r[a] != r[b] by {
            let a0 = if a < p {
                a
            } else {
                a + 1
            };
            let b0 = if b < p {
                b
            } else {
                b + 1
            };
            assert(r[a] == l[a0]);
            assert(r[b] == l[b0]);
        }
    }
}

/// Some reverse-index entry for `g` lists `sid`.
pub open spec fn rev_lists_id(rev: Seq<(String, Vec<u32>)>, g: Seq<char>, sid: u32) -> bool {
    exists|j: int|
        0 <= j < rev.len() && (#[trigger] rev[j]).0@ == g && rev[j].1@.contains(sid)
}

/// The stream keyed `sid` exists and belongs to the device `g`.
pub open spec fn stream_has_code(
    streams: Seq<(u32, GbStreamInfo)>,
    sid: u32,
    g: Seq<char>,
) -> bool {
    match spec_get(streams, sid) {
        Some(s) => s.gb_code@ == g,
        None => false,
    }
}

/// Some entry of `l` reads `s`.
pub open spec fn listed_code(l: Seq<String>, s: Seq<char>) -> bool {
    exists|t: int| 0 <= t < l.len() && (#[trigger] l[t])@ == s
}

/// Some entry of `l` carries the code `s` and the id `sid`.
pub open spec fn listed_pair(l: Seq<(String, u32)>, s: Seq<char>, sid: u32) -> bool {
    exists|t: int| 0 <= t < l.len() && (#[trigger] l[t]).0@ == s && l[t].1 == sid
}

pub struct MemoryStore {
    pub quit_flag: bool,
    pub service_id: String,
    pub stream_timeout_seconds: u32,
    pub device_timeout_seconds: u32,
    pub live_stream_id: u32,
    pub replay_stream_id: u32,
    pub global_sn: u32,
    pub register_sequence: u32,
    pub global_sequence: u32,
    pub sip_devices: Vec<(String, SipDeviceInfo)>,
    pub gb_streams: Vec<(u32, GbStreamInfo)>,
    pub gb_streams_rev: Vec<(String, Vec<u32>)>,
}

impl MemoryStore {
    pub open spec fn devices(self) -> Seq<(String, SipDeviceInfo)> {
        self.sip_devices@
    }

    pub open spec fn streams(self) -> Seq<(u32, GbStreamInfo)> {
        self.gb_streams@
    }

    pub open spec fn rev(self) -> Seq<(String, Vec<u32>)> {
        self.gb_streams_rev@
    }

    /// Every stream is listed in the reverse index under its device.
    pub open spec fn streams_indexed(self) -> bool {
        forall|i: int|
            0 <= i < self.streams().len() ==> rev_lists_id(
                self.rev(),
                (#[trigger] self.streams()[i]).1.gb_code@,
                self.streams()[i].0,
            )
    }

    /// Every id the reverse index lists is a stream of that device.
    pub open spec fn rev_sound(self) -> bool {
        forall|j: int, t: int|
            0 <= j < self.rev().len() && 0 <= t < self.rev()[j].1@.len() ==> stream_has_code(
                self.streams(),
                #[trigger] self.rev()[j].1@[t],
                self.rev()[j].0@,
            )
    }

    /// Reverse-index lists are non-empty and free of duplicates.
    pub open spec fn rev_lists_wf(self) -> bool {
        forall|j: int|
            0 <= j < self.rev().len() ==> (#[trigger] self.rev()[j]).1@.len() > 0 && nodup_u32(
                self.rev()[j].1@,
            )
    }

    /// Stream ids sit below the counter that produced them, so a fresh
    /// allocation can never collide.
    pub open spec fn id_ranges_ok(self) -> bool {
        &&& 1 <= self.live_stream_id <= REPLAY_ID_BASE
        &&& REPLAY_ID_BASE <= self.replay_stream_id
        &&& forall|i: int|
            0 <= i < self.streams().len() ==> {
                let sid = (#[trigger] self.streams()[i]).0;
                (1 <= sid < self.live_stream_id) || (REPLAY_ID_BASE <= sid
                    < self.replay_stream_id)
            }
    }

    /// The registry invariant: one record per key in each map, and the
    /// reverse index exactly tracks the streams of each device.
    pub open spec fn wf(self) -> bool {
        &&& keys_unique(self.devices())
        &&& keys_unique(self.streams())
        &&& keys_unique(self.rev())
        &&& self.streams_indexed()
        &&& self.rev_sound()
        &&& self.rev_lists_wf()
        &&& self.id_ranges_ok()
    }

    /// An empty registry with counters at their seeds.
    pub fn new(config: &Config) -> (s: MemoryStore)
        ensures
            s.wf(),
            s.quit_flag == true,
            s.stream_timeout_seconds == config.stream_timeout_seconds,
            s.device_timeout_seconds == config.device_timeout_seconds,
            s.live_stream_id == 1,
            s.replay_stream_id == REPLAY_ID_BASE,
            s.global_sn == 0,
            s.register_sequence == 0,
            s.global_sequence == 0,
            s.devices().len() == 0,
            s.streams().len() == 0,
            s.rev().len() == 0,
    {
        MemoryStore {
            quit_flag: true,
            service_id: uuid_simple_upper(),
            stream_timeout_seconds: config.stream_timeout_seconds,
            device_timeout_seconds: config.device_timeout_seconds,
            live_stream_id: 1,
            replay_stream_id: REPLAY_ID_BASE,
            global_sn: 0,
            register_sequence: 0,
            global_sequence: 0,
            sip_devices: Vec::new(),
            gb_streams: Vec::new(),
            gb_streams_rev: Vec::new(),
        }
    }

    /// Stores `v` as the MANSCDP serial number.
    pub fn set_global_sn(&mut self, v: u32)
        ensures
            *final(self) == (MemoryStore { global_sn: v, ..*old(self) }),
    {
        self.global_sn = v;
    }

    /// Raises the REGISTER CSeq counter to `v`; a lower `v` is ignored,
    /// so the counter never decreases.
    pub fn set_register_sequence(&mut self, v: u32)
        ensures
            *final(self) == (MemoryStore {
                register_sequence: final(self).register_sequence,
                ..*old(self)
            }),
            final(self).register_sequence == (if v > old(self).register_sequence {
                v
            } else {
                old(self).register_sequence
            }),
            final(self).register_sequence >= old(self).register_sequence,
    {
        if v > self.register_sequence {
            self.register_sequence = v;
        }
    }

    /// Raises the general CSeq counter to `v`; a lower `v` is ignored,
    /// so the counter never decreases.
    pub fn set_global_sequence(&mut self, v: u32)
        ensures
            *final(self) == (MemoryStore {
                global_sequence: final(self).global_sequence,
                ..*old(self)
            }),
            final(self).global_sequence == (if v > old(self).global_sequence {
                v
            } else {
                old(self).global_sequence
            }),
            final(self).global_sequence >= old(self).global_sequence,
    {
        if v > self.global_sequence {
            self.global_sequence = v;
        }
    }

    /// Steps the MANSCDP serial number and returns the new value.
    pub fn add_fetch_global_sn(&mut self) -> (r: u32)
        ensures
            *final(self) == (MemoryStore { global_sn: r, ..*old(self) }),
            old(self).global_sn < u32::MAX ==> r == old(self).global_sn + 1,
            old(self).global_sn == u32::MAX ==> r == 0,
    {
        if self.global_sn == u32::MAX {
            self.global_sn = 0;
        } else {
            self.global_sn = self.global_sn + 1;
        }
        self.global_sn
    }

    /// Steps the REGISTER CSeq counter and returns the new value.
    pub fn add_fetch_register_sequence(&mut self) -> (r: u32)
        ensures
            *final(self) == (MemoryStore { register_sequence: r, ..*old(self) }),
            old(self).register_sequence < u32::MAX ==> r == old(self).register_sequence + 1,
            old(self).register_sequence == u32::MAX ==> r == 0,
    {
        if self.register_sequence == u32::MAX {
            self.register_sequence = 0;
        } else {
            self.register_sequence = self.register_sequence + 1;
        }
        self.register_sequence
    }

    /// Steps the general CSeq counter and returns the new value.
    pub fn add_fetch_global_sequence(&mut self) -> (r: u32)
        ensures
            *final(self) == (MemoryStore { global_sequence: r, ..*old(self) }),
            old(self).global_sequence < u32::MAX ==> r == old(self).global_sequence + 1,
            old(self).global_sequence == u32::MAX ==> r == 0,
    {
        if self.global_sequence == u32::MAX {
            self.global_sequence = 0;
        } else {
            self.global_sequence = self.global_sequence + 1;
        }
        self.global_sequence
    }

    /// Whether the store backend is reachable; the in-memory store always is.
    pub fn is_connected(&self) -> (r: bool)
        ensures
            r == true,
    {
        true
    }

    /// Inserts a device record iff none exists for `gb_code`; the record
    /// starts with `last_seen_ts = now` and no sub-devices.
    pub fn register(
        &mut self,
        branch: &str,
        gb_code: &str,
        socket_addr: &str,
        tcp_stream: Option<u64>,
        now: u32,
    ) -> (r: bool)
        requires
            old(self).wf(),
        ensures
            final(self).wf(),
            r == !has_key(old(self).devices(), gb_code@),
            !r ==> *final(self) == *old(self),
            r ==> *final(self) == (MemoryStore {
                sip_devices: final(self).sip_devices,
                ..*old(self)
            }),
            r ==> final(self).devices() == old(self).devices().push(
                final(self).devices().last(),
            ),
            r ==> final(self).devices().last().0@ == gb_code@,
            r ==> ({
                let d = final(self).devices().last().1;
                &&& d.branch@ == branch@
                &&& d.udp_client_addr@ == socket_addr@
                &&& d.tcp_stream_writer == tcp_stream
                &&& d.ts == now
                &&& d.sub_devices is None
            }),
            r ==> spec_get(final(self).devices(), gb_code@) == Some(
                final(self).devices().last().1,
            ),
    {
        match find_idx_str(&self.sip_devices, gb_code) {
            Some(i) => {
                proof {
                    assert(has_key(old(self).devices(), gb_code@));
                }
                false
            },
            None => {
                let rec = SipDeviceInfo {
                    branch: branch.to_owned(),
                    udp_client_addr: socket_addr.to_owned(),
                    tcp_stream_writer: tcp_stream,
                    ts: now,
                    sub_devices: None,
                };
                self.sip_devices.push((gb_code.to_owned(), rec));
                proof {
                    let m = old(self).devices();
                    let p = final(self).devices().last();
                    assert(final(self).devices() =~= m.push(p));
                    lemma_unique_push(m, p);
                    lemma_get_push(m, p, gb_code@);
                }
                true
            },
        }
    }

    /// Removes the device record for `gb_code` iff one exists.
    pub fn unregister(&mut self, gb_code: &str) -> (r: bool)
        requires
            old(self).wf(),
        ensures
            final(self).wf(),
            r == has_key(old(self).devices(), gb_code@),
            !r ==> *final(self) == *old(self),
            r ==> *final(self) == (MemoryStore {
                sip_devices: final(self).sip_devices,
                ..*old(self)
            }),
            r ==> !has_key(final(self).devices(), gb_code@),
            r ==> final(self).devices().len() == old(self).devices().len() - 1,
            r ==> forall|k: Seq<char>|
                k != gb_code@ ==> #[trigger] spec_get(final(self).devices(), k) == spec_get(
                    old(self).devices(),
                    k,
                ),
    {
        match find_idx_str(&self.sip_devices, gb_code) {
            None => false,
            Some(i) => {
                proof {
                    assert(has_key(old(self).devices(), gb_code@));
                }
                self.sip_devices.remove(i);
                proof {
                    let m = old(self).devices();
                    lemma_get_remove(m, i as int, gb_code@);
                    lemma_get_some_iff_has_key(final(self).devices(), gb_code@);
                    assert forall|k: Seq<char>| k != gb_code@ implies #[trigger] spec_get(
                        final(self).devices(),
                        k,
                    ) == spec_get(m, k) by {
                        lemma_get_remove(m, i as int, k);
                    }
                }
                true
            },
        }
    }

    /// Refreshes the device's liveness stamp iff it is registered; the
    /// stamp never moves backwards.
    pub fn register_keep_alive(&mut self, gb_code: &str, now: u32) -> (r: bool)
        requires
            old(self).wf(),
        ensures
            final(self).wf(),
            r == has_key(old(self).devices(), gb_code@),
            !r ==> *final(self) == *old(self),
            r ==> *final(self) == (MemoryStore {
                sip_devices: final(self).sip_devices,
                ..*old(self)
            }),
            r ==> final(self).devices().len() == old(self).devices().len(),
            r ==> ({
                let o = spec_get(old(self).devices(), gb_code@);
                let n = spec_get(final(self).devices(), gb_code@);
                o is Some && n is Some && n->Some_0 == (SipDeviceInfo {
                    ts: if now > o->Some_0.ts {
                        now
                    } else {
                        o->Some_0.ts
                    },
                    ..o->Some_0
                })
            }),
            r ==> forall|k: Seq<char>|
                k != gb_code@ ==> #[trigger] spec_get(final(self).devices(), k) == spec_get(
                    old(self).devices(),
                    k,
                ),
    {
        match find_idx_str(&self.sip_devices, gb_code) {
            None => false,
            Some(i) => {
                proof {
                    assert(has_key(old(self).devices(), gb_code@));
                    lemma_get_at_index(old(self).devices(), gb_code@, i as int);
                }
                let (key, mut rec) = self.sip_devices.remove(i);
                if now > rec.ts {
                    rec.ts = now;
                }
                self.sip_devices.insert(i, (key, rec));
                proof {
                    let m = old(self).devices();
                    let updated = final(self).devices()[i as int];
                    assert(final(self).devices() =~= m.update(i as int, updated));
                    assert(updated.0 == m[i as int].0);
                    lemma_get_update(m, i as int, updated.1, gb_code@);
                    assert forall|k: Seq<char>| k != gb_code@ implies #[trigger] spec_get(
                        final(self).devices(),
                        k,
                    ) == spec_get(m, k) by {
                        lemma_get_update(m, i as int, updated.1, k);
                    }
                }
                true
            },
        }
    }

    /// The reachable endpoint of the device registered as `gb_code`.
    pub fn find_device_by_gb_code(&self, key: &str) -> (r: Option<DeviceInfo>)
        requires
            self.wf(),
        ensures
            match r {
                Some(d) => ({
                    let g = spec_get(self.devices(), key@);
                    g is Some && d.branch@ == g->Some_0.branch@ && d.socket_addr@
                        == g->Some_0.udp_client_addr@ && d.tcp_stream
                        == g->Some_0.tcp_stream_writer
                }),
                None => !has_key(self.devices(), key@),
            },
    {
        match find_idx_str(&self.sip_devices, key) {
            None => None,
            Some(i) => {
                proof {
                    lemma_get_at_index(self.devices(), key@, i as int);
                }
                let d = &self.sip_devices[i].1;
                Some(DeviceInfo {
                    branch: d.branch.clone(),
                    socket_addr: d.udp_client_addr.clone(),
                    tcp_stream: d.tcp_stream_writer,
                })
            },
        }
    }

    /// The GB code of the stream keyed `stream_id`; empty when unknown.
    pub fn find_gb_code(&self, stream_id: u32) -> (r: String)
        requires
            self.wf(),
        ensures
            match spec_get(self.streams(), stream_id) {
                Some(s) => r@ == s.gb_code@,
                None => r@ == Seq::<char>::empty(),
            },
    {
        match find_idx_u32(&self.gb_streams, stream_id) {
            None => {
                proof {
                    lemma_get_some_iff_has_key(self.streams(), stream_id);
                }
                String::new()
            },
            Some(i) => {
                proof {
                    lemma_get_at_index(self.streams(), stream_id, i as int);
                }
                self.gb_streams[i].1.gb_code.clone()
            },
        }
    }

    /// The device that owns the stream keyed `stream_id`, when both the
    /// stream and a device record for its non-empty GB code exist.
    pub fn find_device_by_stream_id(&self, key: u32) -> (r: Option<DeviceInfo>)
        requires
            self.wf(),
        ensures
            match spec_get(self.streams(), key) {
                None => r is None,
                Some(s) => (if s.gb_code@.len() > 0 {
                    match r {
                        Some(d) => ({
                            let g = spec_get(self.devices(), s.gb_code@);
                            g is Some && d.branch@ == g->Some_0.branch@ && d.socket_addr@
                                == g->Some_0.udp_client_addr@ && d.tcp_stream
                                == g->Some_0.tcp_stream_writer
                        }),
                        None => !has_key(self.devices(), s.gb_code@),
                    }
                } else {
                    r is None
                }),
            },
    {
        let gb_code = self.find_gb_code(key);
        proof {
            lemma_get_some_iff_has_key(self.streams(), key);
        }
        if gb_code.as_str().unicode_len() > 0 {
            self.find_device_by_gb_code(gb_code.as_str())
        } else {
            None
        }
    }

    /// Opens a stream for a registered device: allocates the next id from
    /// the live or playback counter, records the dialog, and appends the
    /// id to the device's reverse-index list. `None`, with nothing
    /// changed, iff the device is not registered.
    pub fn invite(
        &mut self,
        gb_code: &str,
        channel_id: &str,
        caller_id: &str,
        from_tag: &str,
        is_live: bool,
        now: u32,
    ) -> (r: Option<InviteResult>)
        requires
            old(self).wf(),
            is_live ==> old(self).live_stream_id < REPLAY_ID_BASE,
            !is_live ==> old(self).replay_stream_id < u32::MAX,
        ensures
            final(self).wf(),
            r is None ==> *final(self) == *old(self) && !has_key(old(self).devices(), gb_code@),
            r is Some ==> ({
                let ir = r->Some_0;
                let sid = ir.stream_id;
                &&& has_key(old(self).devices(), gb_code@)
                &&& ({
                    let g = spec_get(old(self).devices(), gb_code@);
                    g is Some && ir.branch@ == g->Some_0.branch@ && ir.socket_addr@
                        == g->Some_0.udp_client_addr@ && ir.tcp_stream
                        == g->Some_0.tcp_stream_writer
                })
                &&& ir.channel_id@ == channel_id@
                &&& sid == (if is_live {
                    old(self).live_stream_id
                } else {
                    old(self).replay_stream_id
                })
                &&& !has_key(old(self).streams(), sid)
                &&& (if is_live {
                    &&& final(self).live_stream_id == old(self).live_stream_id + 1
                    &&& final(self).replay_stream_id == old(self).replay_stream_id
                } else {
                    &&& final(self).replay_stream_id == old(self).replay_stream_id + 1
                    &&& final(self).live_stream_id == old(self).live_stream_id
                })
                &&& *final(self) == (MemoryStore {
                    live_stream_id: final(self).live_stream_id,
                    replay_stream_id: final(self).replay_stream_id,
                    gb_streams: final(self).gb_streams,
                    gb_streams_rev: final(self).gb_streams_rev,
                    ..*old(self)
                })
                &&& final(self).streams() == old(self).streams().push(
                    final(self).streams().last(),
                )
                &&& final(self).streams().last().0 == sid
                &&& ({
                    let s = final(self).streams().last().1;
                    &&& s.gb_code@ == gb_code@
                    &&& s.caller_id@ == caller_id@
                    &&& s.from_tag@ == from_tag@
                    &&& s.to_tag@ == Seq::<char>::empty()
                    &&& s.stream_server_ip@ == Seq::<char>::empty()
                    &&& s.stream_server_port == 0
                    &&& s.ts == now
                })
                &&& ir.success == has_key(old(self).rev(), gb_code@)
                &&& ({
                    let newlist = spec_get(final(self).rev(), gb_code@);
                    newlist is Some && newlist->Some_0@ == (match spec_get(
                        old(self).rev(),
                        gb_code@,
                    ) {
                        Some(l) => l@.push(sid),
                        None => seq![sid],
                    })
                })
                &&& forall|k: Seq<char>|
                    k != gb_code@ ==> #[trigger] spec_get(final(self).rev(), k) == spec_get(
                        old(self).rev(),
                        k,
                    )
                &&& final(self).rev().len() == old(self).rev().len() + (if has_key(
                    old(self).rev(),
                    gb_code@,
                ) {
                    0int
                } else {
                    1int
                })
            }),
    {
        let dev = match self.find_device_by_gb_code(gb_code) {
            None => {
                return None;
            },
            Some(d) => d,
        };
        proof {
            lemma_get_some_iff_has_key(old(self).devices(), gb_code@);
        }
        let sid: u32;
        if is_live {
            sid = self.live_stream_id;
            self.live_stream_id = sid + 1;
        } else {
            sid = self.replay_stream_id;
            self.replay_stream_id = sid + 1;
        }
        proof {
            lemma_get_some_iff_has_key(old(self).streams(), sid);
            if has_key(old(self).streams(), sid) {
                let w = choose|i: int|
                    0 <= i < old(self).streams().len() && (#[trigger] old(self).streams()[i]).0
                        == sid;
                assert(false);
            }
        }
        let rec = GbStreamInfo {
            gb_code: gb_code.to_owned(),
            caller_id: caller_id.to_owned(),
            from_tag: from_tag.to_owned(),
            to_tag: String::new(),
            stream_server_ip: String::new(),
            stream_server_port: 0,
            ts: now,
        };
        self.gb_streams.push((sid, rec));
        proof {
            lemma_unique_push(old(self).streams(), (*self).streams().last());
            assert((*self).streams() =~= old(self).streams().push(
                (*self).streams().last(),
            ));
        }
        let ghost mid = *self;
        let is_playing: bool;
        match find_idx_str(&self.gb_streams_rev, gb_code) {
            Some(j) => {
                is_playing = true;
                proof {
                    assert(has_key(old(self).rev(), gb_code@));
                    lemma_get_at_index(old(self).rev(), gb_code@, j as int);
                }
                let (k, mut lst) = self.gb_streams_rev.remove(j);
                lst.push(sid);
                self.gb_streams_rev.insert(j, (k, lst));
                proof {
                    let updated = (*self).rev()[j as int];
                    assert((*self).rev() =~= old(self).rev().update(j as int, updated));
                    assert(updated.0 == old(self).rev()[j as int].0);
                    assert(updated == (old(self).rev()[j as int].0, updated.1));
                    assert(updated.1@ == old(self).rev()[j as int].1@.push(sid));
                    lemma_get_update(old(self).rev(), j as int, updated.1, gb_code@);
                    assert(old(self).rev().update(j as int, (old(self).rev()[j as int].0, updated.1))
                        == old(self).rev().update(j as int, updated));
                    assert(spec_get((*self).rev(), gb_code@) == Some(updated.1));
                    assert forall|k2: Seq<char>| k2 != gb_code@ implies #[trigger] spec_get(
                        (*self).rev(),
                        k2,
                    ) == spec_get(old(self).rev(), k2) by {
                        lemma_get_update(old(self).rev(), j as int, updated.1, k2);
                    }
                }
            },
            None => {
                is_playing = false;
                let mut lst: Vec<u32> = Vec::new();
                lst.push(sid);
                self.gb_streams_rev.push((gb_code.to_owned(), lst));
                proof {
                    let p = (*self).rev().last();
                    assert((*self).rev() =~= old(self).rev().push(p));
                    assert(p.1@ =~= seq![sid]);
                    lemma_unique_push(old(self).rev(), p);
                    lemma_get_push(old(self).rev(), p, gb_code@);
                    lemma_get_some_iff_has_key(old(self).rev(), gb_code@);
                    assert(spec_get((*self).rev(), gb_code@) == Some(p.1));
                    assert forall|k2: Seq<char>| k2 != gb_code@ implies #[trigger] spec_get(
                        (*self).rev(),
                        k2,
                    ) == spec_get(old(self).rev(), k2) by {
                        lemma_get_push(old(self).rev(), p, k2);
                        lemma_get_some_iff_has_key(old(self).rev(), k2);
                    }
                }
            },
        }
        proof {
            self.lemma_invite_wf(*old(self), sid, gb_code@);
        }
        Some(InviteResult {
            success: is_playing,
            channel_id: channel_id.to_owned(),
            stream_id: sid,
            branch: dev.branch,
            socket_addr: dev.socket_addr,
            tcp_stream: dev.tcp_stream,
        })
    }

    /// After `invite` pushed the stream and indexed it, the invariant holds
    /// again.
    proof fn lemma_invite_wf(self, pre: MemoryStore, sid: u32, g: Seq<char>)
        requires
            pre.wf(),
            !has_key(pre.streams(), sid),
            keys_unique(self.streams()),
            keys_unique(self.rev()),
            self.devices() == pre.devices(),
            self.streams() == pre.streams().push(self.streams().last()),
            self.streams().last().0 == sid,
            self.streams().last().1.gb_code@ == g,
            spec_get(self.rev(), g) is Some,
            spec_get(self.rev(), g)->Some_0@ == (match spec_get(pre.rev(), g) {
                Some(l) => l@.push(sid),
                None => seq![sid],
            }),
            forall|k: Seq<char>|
                k != g ==> #[trigger] spec_get(self.rev(), k) == spec_get(pre.rev(), k),
            self.rev().len() == pre.rev().len() + (if has_key(pre.rev(), g) {
                0int
            } else {
                1int
            }),
            1 <= self.live_stream_id <= REPLAY_ID_BASE,
            REPLAY_ID_BASE <= self.replay_stream_id,
            sid < self.live_stream_id || REPLAY_ID_BASE <= sid < self.replay_stream_id,
            1 <= sid,
            pre.live_stream_id <= self.live_stream_id,
            pre.replay_stream_id <= self.replay_stream_id,
        ensures
            self.wf(),
    {
        assert(self.streams_indexed()) by {
            assert forall|i: int| 0 <= i < self.streams().len() implies rev_lists_id(
                self.rev(),
                (#[trigger] self.streams()[i]).1.gb_code@,
                self.streams()[i].0,
            ) by {
                lemma_get_some_iff_has_key(self.rev(), self.streams()[i].1.gb_code@);
                if i < pre.streams().len() {
                    assert(self.streams()[i] == pre.streams()[i]);
                    let gi = pre.streams()[i].1.gb_code@;
                    let idi = pre.streams()[i].0;
                    assert(rev_lists_id(pre.rev(), gi, idi));
                    let j = choose|j: int|
                        0 <= j < pre.rev().len() && (#[trigger] pre.rev()[j]).0@ == gi
                            && pre.rev()[j].1@.contains(idi);
                    lemma_get_at_index(pre.rev(), gi, j);
                    let jn = choose|jn: int|
                        0 <= jn < self.rev().len() && (#[trigger] self.rev()[jn]).0@ == gi;
                    lemma_get_at_index(self.rev(), gi, jn);
                    if gi == g {
                        assert(spec_get(self.rev(), g)->Some_0@ == pre.rev()[j].1@.push(sid));
                        let t = choose|t: int|
                            0 <= t < pre.rev()[j].1@.len() && pre.rev()[j].1@[t] == idi;
                        assert(self.rev()[jn].1@[t] == idi);
                        assert(self.rev()[jn].1@.contains(idi));
                    } else {
                        assert(spec_get(self.rev(), gi) == spec_get(pre.rev(), gi));
                        assert(self.rev()[jn].1@ == pre.rev()[j].1@);
                        assert(self.rev()[jn].1@.contains(idi));
                    }
                    assert(rev_lists_id(self.rev(), gi, idi));
                } else {
                    assert(self.streams()[i] == self.streams().last());
                    lemma_get_some_iff_has_key(self.rev(), g);
                    let jn = choose|jn: int|
                        0 <= jn < self.rev().len() && (#[trigger] self.rev()[jn]).0@ == g;
                    lemma_get_at_index(self.rev(), g, jn);
                    let nl = self.rev()[jn].1@;
                    assert(nl[nl.len() - 1] == sid);
                    assert(nl.contains(sid));
                    assert(rev_lists_id(self.rev(), g, sid));
                }
            }
        }
        assert(self.rev_sound()) by {
            assert forall|j: int, t: int|
                0 <= j < self.rev().len() && 0 <= t < self.rev()[j].1@.len() implies stream_has_code(
                self.streams(),
                #[trigger] self.rev()[j].1@[t],
                self.rev()[j].0@,
            ) by {
                let kj = self.rev()[j].0@;
                let id = self.rev()[j].1@[t];
                lemma_get_at_index(self.rev(), kj, j);
                if kj == g {
                    let oldl_opt = spec_get(pre.rev(), g);
                    let nl = self.rev()[j].1@;
                    if t < nl.len() - 1 {
                        let ol = oldl_opt->Some_0@;
                        assert(nl == ol.push(sid));
                        assert(nl[t] == ol[t]);
                        lemma_get_some_iff_has_key(pre.rev(), g);
                        let j0 = choose|j0: int|
                            0 <= j0 < pre.rev().len() && (#[trigger] pre.rev()[j0]).0@ == g;
                        lemma_get_at_index(pre.rev(), g, j0);
                        assert(pre.rev()[j0].1@ == ol);
                        assert(stream_has_code(pre.streams(), ol[t], g));
                        lemma_get_some_iff_has_key(pre.streams(), id);
                        lemma_get_push(pre.streams(), self.streams().last(), id);
                    } else {
                        assert(id == sid);
                        lemma_get_push(pre.streams(), self.streams().last(), sid);
                        lemma_get_some_iff_has_key(pre.streams(), sid);
                    }
                } else {
                    assert(spec_get(self.rev(), kj) == spec_get(pre.rev(), kj));
                    lemma_get_some_iff_has_key(pre.rev(), kj);
                    let j0 = choose|j0: int|
                        0 <= j0 < pre.rev().len() && (#[trigger] pre.rev()[j0]).0@ == kj;
                    lemma_get_at_index(pre.rev(), kj, j0);
                    assert(pre.rev()[j0].1@ == self.rev()[j].1@);
                    assert(stream_has_code(pre.streams(), id, kj));
                    lemma_get_some_iff_has_key(pre.streams(), id);
                    lemma_get_push(pre.streams(), self.streams().last(), id);
                }
            }
        }
        assert(self.rev_lists_wf()) by {
            assert forall|j: int| 0 <= j < self.rev().len() implies (
            #[trigger] self.rev()[j]).1@.len() > 0 && nodup_u32(self.rev()[j].1@) by {
                let kj = self.rev()[j].0@;
                lemma_get_at_index(self.rev(), kj, j);
                if kj == g {
                    match spec_get(pre.rev(), g) {
                        Some(l) => {
                            lemma_get_some_iff_has_key(pre.rev(), g);
                            let j0 = choose|j0: int|
                                0 <= j0 < pre.rev().len() && (#[trigger] pre.rev()[j0]).0@ == g;
                            lemma_get_at_index(pre.rev(), g, j0);
                            let ol = pre.rev()[j0].1@;
                            let nl = self.rev()[j].1@;
                            assert(nl == ol.push(sid));
                            assert(nodup_u32(nl)) by {
                                assert forall|a: int, b: int|
                                    0 <= a < b < nl.len() implies nl[a] != nl[b] by {
                                    if b == nl.len() - 1 {
                                        assert(nl[a] == ol[a]);
                                        assert(stream_has_code(pre.streams(), ol[a], g));
                                        lemma_get_some_iff_has_key(pre.streams(), ol[a]);
                                    } else {
                                        assert(nl[a] == ol[a]);
                                        assert(nl[b] == ol[b]);
                                    }
                                }
                            }
                        },
                        None => {
                            assert(self.rev()[j].1@ =~= seq![sid]);
                        },
                    }
                } else {
                    assert(spec_get(self.rev(), kj) == spec_get(pre.rev(), kj));
                    lemma_get_some_iff_has_key(pre.rev(), kj);
                    let j0 = choose|j0: int|
                        0 <= j0 < pre.rev().len() && (#[trigger] pre.rev()[j0]).0@ == kj;
                    lemma_get_at_index(pre.rev(), kj, j0);
                    assert(pre.rev()[j0].1@ == self.rev()[j].1@);
                }
            }
        }
        assert(self.id_ranges_ok()) by {
            assert forall|i: int| 0 <= i < self.streams().len() implies {
                let s2 = (#[trigger] self.streams()[i]).0;
                (1 <= s2 < self.live_stream_id) || (REPLAY_ID_BASE <= s2
                    < self.replay_stream_id)
            } by {
                if i < pre.streams().len() {
                    assert(self.streams()[i] == pre.streams()[i]);
                }
            }
        }
    }

    /// Closes the stream `(gb_code, stream_id)`: removes its record and
    /// takes its id out of the device's reverse-index list, dropping the
    /// list when it empties — `success` then says a BYE must go on the
    /// wire. `None` with nothing changed when no such stream exists;
    /// `None` with the stream still removed when the device is gone.
    pub fn bye(&mut self, gb_code: &str, stream_id: u32) -> (r: Option<ByeResult>)
        requires
            old(self).wf(),
        ensures
            final(self).wf(),
            !stream_has_code(old(self).streams(), stream_id, gb_code@) ==> r is None
                && *final(self) == *old(self),
            stream_has_code(old(self).streams(), stream_id, gb_code@) ==> ({
                let oldl = spec_get(old(self).rev(), gb_code@);
                &&& *final(self) == (MemoryStore {
                    gb_streams: final(self).gb_streams,
                    gb_streams_rev: final(self).gb_streams_rev,
                    ..*old(self)
                })
                &&& !has_key(final(self).streams(), stream_id)
                &&& final(self).streams().len() == old(self).streams().len() - 1
                &&& forall|k: u32|
                    k != stream_id ==> #[trigger] spec_get(final(self).streams(), k) == spec_get(
                        old(self).streams(),
                        k,
                    )
                &&& oldl is Some
                &&& (if oldl->Some_0@.len() == 1 {
                    !has_key(final(self).rev(), gb_code@) && final(self).rev().len() == old(
                        self,
                    ).rev().len() - 1
                } else {
                    ({
                        let newl = spec_get(final(self).rev(), gb_code@);
                        &&& newl is Some
                        &&& newl->Some_0@.len() == oldl->Some_0@.len() - 1
                        &&& !newl->Some_0@.contains(stream_id)
                        &&& forall|y: u32|
                            y != stream_id ==> (#[trigger] newl->Some_0@.contains(y)
                                == oldl->Some_0@.contains(y))
                        &&& final(self).rev().len() == old(self).rev().len()
                    })
                })
                &&& forall|k: Seq<char>|
                    k != gb_code@ ==> #[trigger] spec_get(final(self).rev(), k) == spec_get(
                        old(self).rev(),
                        k,
                    )
                &&& (match r {
                    Some(b) => ({
                        let s = spec_get(old(self).streams(), stream_id)->Some_0;
                        let g = spec_get(old(self).devices(), gb_code@);
                        &&& g is Some
                        &&& b.success == (oldl->Some_0@.len() == 1)
                        &&& b.caller_id@ == s.caller_id@
                        &&& b.from_tag@ == s.from_tag@
                        &&& b.to_tag@ == s.to_tag@
                        &&& b.stream_server_ip@ == s.stream_server_ip@
                        &&& b.stream_server_port == s.stream_server_port
                        &&& b.branch@ == g->Some_0.branch@
                        &&& b.socket_addr@ == g->Some_0.udp_client_addr@
                        &&& b.tcp_stream == g->Some_0.tcp_stream_writer
                    }),
                    None => !has_key(old(self).devices(), gb_code@),
                })
            }),
    {
        let i = match find_idx_u32(&self.gb_streams, stream_id) {
            None => {
                proof {
                    lemma_get_some_iff_has_key(old(self).streams(), stream_id);
                }
                return None;
            },
            Some(i) => i,
        };
        proof {
            lemma_get_at_index(old(self).streams(), stream_id, i as int);
        }
        let ks: String = gb_code.to_owned();
        if !(self.gb_streams[i].1.gb_code == ks) {
            return None;
        }
        let (_, srec) = self.gb_streams.remove(i);
        proof {
            lemma_get_remove(old(self).streams(), i as int, stream_id);
            lemma_get_some_iff_has_key((*self).streams(), stream_id);
            assert forall|k: u32| k != stream_id implies #[trigger] spec_get(
                (*self).streams(),
                k,
            ) == spec_get(old(self).streams(), k) by {
                lemma_get_remove(old(self).streams(), i as int, k);
            }
        }
        let j = match find_idx_str(&self.gb_streams_rev, gb_code) {
            None => {
                proof {
                    assert(rev_lists_id(
                        old(self).rev(),
                        old(self).streams()[i as int].1.gb_code@,
                        stream_id,
                    ));
                    assert(false);
                }
                vstd::pervasive::unreached()
            },
            Some(j) => j,
        };
        proof {
            lemma_get_at_index(old(self).rev(), gb_code@, j as int);
        }
        let (k2, mut lst) = self.gb_streams_rev.remove(j);
        let p = match find_val_u32(&lst, stream_id) {
            None => {
                proof {
                    assert(rev_lists_id(
                        old(self).rev(),
                        old(self).streams()[i as int].1.gb_code@,
                        stream_id,
                    ));
                    let j0 = choose|j0: int|
                        0 <= j0 < old(self).rev().len() && (#[trigger] old(self).rev()[j0]).0@
                            == gb_code@ && old(self).rev()[j0].1@.contains(stream_id);
                    assert(j0 == j);
                    assert(false);
                }
                vstd::pervasive::unreached()
            },
            Some(p) => p,
        };
        lst.remove(p);
        proof {
            lemma_list_remove_value(old(self).rev()[j as int].1@, p as int, stream_id);
        }
        let bye_to_device = lst.is_empty();
        if !bye_to_device {
            self.gb_streams_rev.insert(j, (k2, lst));
            proof {
                let updated = (*self).rev()[j as int];
                assert((*self).rev() =~= old(self).rev().update(j as int, updated));
                assert(updated == (old(self).rev()[j as int].0, updated.1));
                lemma_get_update(old(self).rev(), j as int, updated.1, gb_code@);
                assert forall|k: Seq<char>| k != gb_code@ implies #[trigger] spec_get(
                    (*self).rev(),
                    k,
                ) == spec_get(old(self).rev(), k) by {
                    lemma_get_update(old(self).rev(), j as int, updated.1, k);
                }
            }
        } else {
            proof {
                lemma_get_remove(old(self).rev(), j as int, gb_code@);
                lemma_get_some_iff_has_key((*self).rev(), gb_code@);
                assert forall|k: Seq<char>| k != gb_code@ implies #[trigger] spec_get(
                    (*self).rev(),
                    k,
                ) == spec_get(old(self).rev(), k) by {
                    lemma_get_remove(old(self).rev(), j as int, k);
                }
                assert(old(self).rev()[j as int].1@.len() == 1) by {
                    assert(old(self).rev()[j as int].1@.remove(p as int).len() == 0);
                }
            }
        }
        proof {
            self.lemma_bye_wf(*old(self), stream_id, gb_code@, i as int, j as int, p as int);
        }
        match self.find_device_by_gb_code(gb_code) {
            None => {
                proof {
                    lemma_get_some_iff_has_key(old(self).devices(), gb_code@);
                }
                None
            },
            Some(d) => Some(ByeResult {
                success: bye_to_device,
                caller_id: srec.caller_id,
                from_tag: srec.from_tag,
                to_tag: srec.to_tag,
                branch: d.branch,
                socket_addr: d.socket_addr,
                tcp_stream: d.tcp_stream,
                stream_server_ip: srec.stream_server_ip,
                stream_server_port: srec.stream_server_port,
            }),
        }
    }

    /// After `bye` removed the stream and pruned the reverse index, the
    /// invariant holds again.
    proof fn lemma_bye_wf(self, pre: MemoryStore, sid: u32, g: Seq<char>, i: int, j: int, p: int)
        requires
            pre.wf(),
            0 <= i < pre.streams().len(),
            pre.streams()[i].0 == sid,
            pre.streams()[i].1.gb_code@ == g,
            0 <= j < pre.rev().len(),
            pre.rev()[j].0@ == g,
            0 <= p < pre.rev()[j].1@.len(),
            pre.rev()[j].1@[p] == sid,
            self.devices() == pre.devices(),
            self.streams() == pre.streams().remove(i),
            self.live_stream_id == pre.live_stream_id,
            self.replay_stream_id == pre.replay_stream_id,
            (if pre.rev()[j].1@.len() == 1 {
                self.rev() == pre.rev().remove(j)
            } else {
                self.rev() == pre.rev().update(
                    j,
                    (pre.rev()[j].0, self.rev()[j].1),
                ) && self.rev()[j].1@ == pre.rev()[j].1@.remove(p)
            }),
        ensures
            self.wf(),
    {
        lemma_get_remove(pre.streams(), i, sid);
        lemma_get_at_index(pre.streams(), sid, i);
        assert(keys_unique(self.streams()));
        if pre.rev()[j].1@.len() == 1 {
            lemma_get_remove(pre.rev(), j, g);
        } else {
            lemma_get_update(pre.rev(), j, self.rev()[j].1, g);
        }
        assert(keys_unique(self.rev()));
        lemma_list_remove_value(pre.rev()[j].1@, p, sid);
        let dropped = pre.rev()[j].1@.len() == 1;
        assert(self.streams_indexed()) by {
            assert forall|t: int| 0 <= t < self.streams().len() implies rev_lists_id(
                self.rev(),
                (#[trigger] self.streams()[t]).1.gb_code@,
                self.streams()[t].0,
            ) by {
                let t0 = if t < i {
                    t
                } else {
                    t + 1
                };
                assert(self.streams()[t] == pre.streams()[t0]);
                let gt = pre.streams()[t0].1.gb_code@;
                let idt = pre.streams()[t0].0;
                assert(idt != sid);
                assert(rev_lists_id(pre.rev(), gt, idt));
                let j0 = choose|j0: int|
                    0 <= j0 < pre.rev().len() && (#[trigger] pre.rev()[j0]).0@ == gt
                        && pre.rev()[j0].1@.contains(idt);
                if j0 == j {
                    assert(gt == g);
                    if dropped {
                        let w = choose|w: int|
                            0 <= w < pre.rev()[j].1@.len() && pre.rev()[j].1@[w] == idt;
                        assert(w == 0 && p == 0);
                        assert(false);
                    } else {
                        assert(pre.rev()[j].1@.contains(idt));
                        assert(self.rev()[j].1@.contains(idt));
                        assert((#[trigger] self.rev()[j]).0@ == gt);
                        assert(rev_lists_id(self.rev(), gt, idt));
                    }
                } else {
                    let jn = if dropped && j0 > j {
                        j0 - 1
                    } else {
                        j0
                    };
                    assert(self.rev()[jn] == pre.rev()[j0]);
                    assert(rev_lists_id(self.rev(), gt, idt));
                }
            }
        }
        assert(self.rev_sound()) by {
            assert forall|j2: int, t: int|
                0 <= j2 < self.rev().len() && 0 <= t < self.rev()[j2].1@.len()
                    implies stream_has_code(
                self.streams(),
                #[trigger] self.rev()[j2].1@[t],
                self.rev()[j2].0@,
            ) by {
                let id = self.rev()[j2].1@[t];
                let kj = self.rev()[j2].0@;
                if !dropped && j2 == j {
                    assert(kj == g);
                    assert(self.rev()[j].1@.contains(id)) by {
                        assert(self.rev()[j].1@[t] == id);
                    }
                    assert(pre.rev()[j].1@.contains(id));
                    let w = choose|w: int|
                        0 <= w < pre.rev()[j].1@.len() && pre.rev()[j].1@[w] == id;
                    assert(stream_has_code(pre.streams(), pre.rev()[j].1@[w], pre.rev()[j].0@));
                    assert(id != sid);
                    lemma_get_remove(pre.streams(), i, id);
                } else {
                    let j0 = if dropped && j2 >= j {
                        j2 + 1
                    } else {
                        j2
                    };
                    assert(self.rev()[j2] == pre.rev()[j0]);
                    assert(stream_has_code(pre.streams(), pre.rev()[j0].1@[t], pre.rev()[j0].0@));
                    assert(id != sid) by {
                        if id == sid {
                            assert(pre.rev()[j0].0@ == pre.streams()[i].1.gb_code@);
                            assert(pre.rev()[j0].0@ == g);
                            assert(j0 == j);
                            if !dropped {
                                assert(j2 == j);
                            }
                            assert(false);
                        }
                    }
                    lemma_get_remove(pre.streams(), i, id);
                }
            }
        }
        assert(self.rev_lists_wf()) by {
            assert forall|j2: int| 0 <= j2 < self.rev().len() implies (
            #[trigger] self.rev()[j2]).1@.len() > 0 && nodup_u32(self.rev()[j2].1@) by {
                if !dropped && j2 == j {
                } else {
                    let j0 = if dropped && j2 >= j {
                        j2 + 1
                    } else {
                        j2
                    };
                    assert(self.rev()[j2] == pre.rev()[j0]);
                }
            }
        }
        assert(self.id_ranges_ok()) by {
            assert forall|t: int| 0 <= t < self.streams().len() implies {
                let s2 = (#[trigger] self.streams()[t]).0;
                (1 <= s2 < self.live_stream_id) || (REPLAY_ID_BASE <= s2
                    < self.replay_stream_id)
            } by {
                let t0 = if t < i {
                    t
                } else {
                    t + 1
                };
                assert(self.streams()[t] == pre.streams()[t0]);
            }
        }
    }

    /// A change to stream records that keeps every key and every GB code
    /// keeps the invariant.
    proof fn lemma_streams_same_shape_wf(self, pre: MemoryStore)
        requires
            pre.wf(),
            self.devices() == pre.devices(),
            self.rev() == pre.rev(),
            self.live_stream_id == pre.live_stream_id,
            self.replay_stream_id == pre.replay_stream_id,
            self.streams().len() == pre.streams().len(),
            forall|i: int|
                0 <= i < pre.streams().len() ==> (#[trigger] self.streams()[i]).0
                    == pre.streams()[i].0 && self.streams()[i].1.gb_code@
                    == pre.streams()[i].1.gb_code@,
        ensures
            self.wf(),
    {
        assert(keys_unique(self.streams())) by {
            assert forall|a: int, b: int|
                0 <= a < b < self.streams().len() implies (#[trigger] self.streams()[a]).0 != (
            #[trigger] self.streams()[b]).0 by {
                assert(pre.streams()[a].0 != pre.streams()[b].0);
            }
        }
        assert(self.streams_indexed()) by {
            assert forall|i: int| 0 <= i < self.streams().len() implies rev_lists_id(
                self.rev(),
                (#[trigger] self.streams()[i]).1.gb_code@,
                self.streams()[i].0,
            ) by {
                assert(rev_lists_id(pre.rev(), pre.streams()[i].1.gb_code@, pre.streams()[i].0));
            }
        }
        assert(self.rev_sound()) by {
            assert forall|j: int, t: int|
                0 <= j < self.rev().len() && 0 <= t < self.rev()[j].1@.len()
                    implies stream_has_code(
                self.streams(),
                #[trigger] self.rev()[j].1@[t],
                self.rev()[j].0@,
            ) by {
                let id = self.rev()[j].1@[t];
                let kj = self.rev()[j].0@;
                assert(stream_has_code(pre.streams(), pre.rev()[j].1@[t], pre.rev()[j].0@));
                lemma_get_some_iff_has_key(pre.streams(), id);
                let w = choose|w: int|
                    0 <= w < pre.streams().len() && (#[trigger] pre.streams()[w]).0 == id;
                lemma_get_at_index(pre.streams(), id, w);
                lemma_get_at_index(self.streams(), id, w);
            }
        }
        assert(self.id_ranges_ok()) by {
            assert forall|i: int| 0 <= i < self.streams().len() implies {
                let s2 = (#[trigger] self.streams()[i]).0;
                (1 <= s2 < self.live_stream_id) || (REPLAY_ID_BASE <= s2
                    < self.replay_stream_id)
            } by {
                assert(pre.streams()[i].0 == self.streams()[i].0);
            }
        }
    }

    /// Refreshes the stream's liveness stamp iff the stream exists and
    /// belongs to `gb_code`; the stamp never moves backwards.
    pub fn stream_keep_alive(&mut self, gb_code: &str, stream_id: u32, now: u32) -> (r: bool)
        requires
            old(self).wf(),
        ensures
            final(self).wf(),
            r == stream_has_code(old(self).streams(), stream_id, gb_code@),
            !r ==> *final(self) == *old(self),
            r ==> *final(self) == (MemoryStore {
                gb_streams: final(self).gb_streams,
                ..*old(self)
            }),
            r ==> final(self).streams().len() == old(self).streams().len(),
            r ==> ({
                let o = spec_get(old(self).streams(), stream_id);
                let n = spec_get(final(self).streams(), stream_id);
                o is Some && n is Some && n->Some_0 == (GbStreamInfo {
                    ts: if now > o->Some_0.ts {
                        now
                    } else {
                        o->Some_0.ts
                    },
                    ..o->Some_0
                })
            }),
            r ==> forall|k: u32|
                k != stream_id ==> #[trigger] spec_get(final(self).streams(), k) == spec_get(
                    old(self).streams(),
                    k,
                ),
    {
        let i = match find_idx_u32(&self.gb_streams, stream_id) {
            None => {
                proof {
                    lemma_get_some_iff_has_key(old(self).streams(), stream_id);
                }
                return false;
            },
            Some(i) => i,
        };
        proof {
            lemma_get_at_index(old(self).streams(), stream_id, i as int);
        }
        let ks: String = gb_code.to_owned();
        if !(self.gb_streams[i].1.gb_code == ks) {
            return false;
        }
        let (key, mut rec) = self.gb_streams.remove(i);
        if now > rec.ts {
            rec.ts = now;
        }
        self.gb_streams.insert(i, (key, rec));
        proof {
            let m = old(self).streams();
            let updated = (*self).streams()[i as int];
            assert((*self).streams() =~= m.update(i as int, updated));
            assert(updated == (m[i as int].0, updated.1));
            lemma_get_update(m, i as int, updated.1, stream_id);
            assert forall|k: u32| k != stream_id implies #[trigger] spec_get(
                (*self).streams(),
                k,
            ) == spec_get(m, k) by {
                lemma_get_update(m, i as int, updated.1, k);
            }
            self.lemma_streams_same_shape_wf(*old(self));
        }
        true
    }

    /// Records the media endpoint the allocator chose for the stream, iff
    /// the stream exists.
    pub fn update_stream_server_info(&mut self, stream_id: u32, ip: &str, port: u16)
        requires
            old(self).wf(),
        ensures
            final(self).wf(),
            !has_key(old(self).streams(), stream_id) ==> *final(self) == *old(self),
            has_key(old(self).streams(), stream_id) ==> ({
                let o = spec_get(old(self).streams(), stream_id);
                let n = spec_get(final(self).streams(), stream_id);
                &&& *final(self) == (MemoryStore {
                    gb_streams: final(self).gb_streams,
                    ..*old(self)
                })
                &&& final(self).streams().len() == old(self).streams().len()
                &&& o is Some
                &&& n is Some
                &&& n->Some_0 == (GbStreamInfo {
                    stream_server_ip: n->Some_0.stream_server_ip,
                    stream_server_port: port,
                    ..o->Some_0
                })
                &&& n->Some_0.stream_server_ip@ == ip@
                &&& forall|k: u32|
                    k != stream_id ==> #[trigger] spec_get(final(self).streams(), k) == spec_get(
                        old(self).streams(),
                        k,
                    )
            }),
    {
        let i = match find_idx_u32(&self.gb_streams, stream_id) {
            None => {
                proof {
                    lemma_get_some_iff_has_key(old(self).streams(), stream_id);
                }
                return ;
            },
            Some(i) => i,
        };
        proof {
            assert(has_key(old(self).streams(), stream_id));
            lemma_get_at_index(old(self).streams(), stream_id, i as int);
        }
        let (key, mut rec) = self.gb_streams.remove(i);
        rec.stream_server_ip = ip.to_owned();
        rec.stream_server_port = port;
        self.gb_streams.insert(i, (key, rec));
        proof {
            let m = old(self).streams();
            let updated = (*self).streams()[i as int];
            assert((*self).streams() =~= m.update(i as int, updated));
            assert(updated == (m[i as int].0, updated.1));
            lemma_get_update(m, i as int, updated.1, stream_id);
            assert forall|k: u32| k != stream_id implies #[trigger] spec_get(
                (*self).streams(),
                k,
            ) == spec_get(m, k) by {
                lemma_get_update(m, i as int, updated.1, k);
            }
            self.lemma_streams_same_shape_wf(*old(self));
        }
    }

    /// Writes `to_tag` into every stream whose dialog carries `from_tag`;
    /// all other fields and streams stay as they were.
    pub fn update_stream_tag_info(&mut self, from_tag: &str, to_tag: &str)
        requires
            old(self).wf(),
        ensures
            final(self).wf(),
            *final(self) == (MemoryStore { gb_streams: final(self).gb_streams, ..*old(self) }),
            final(self).streams().len() == old(self).streams().len(),
            forall|i: int|
                0 <= i < old(self).streams().len() ==> ({
                    let o = #[trigger] old(self).streams()[i];
                    let n = final(self).streams()[i];
                    &&& n.0 == o.0
                    &&& n.1 == (GbStreamInfo { to_tag: n.1.to_tag, ..o.1 })
                    &&& (o.1.from_tag@ == from_tag@ ==> n.1.to_tag@ == to_tag@)
                    &&& (o.1.from_tag@ != from_tag@ ==> n.1.to_tag == o.1.to_tag)
                }),
    {
        let ft: String = from_tag.to_owned();
        let n = self.gb_streams.len();
        let mut i: usize = 0;
        while i < n
            invariant
                i <= n,
                ft@ == from_tag@,
                old(self).wf(),
                n == old(self).streams().len(),
                self.streams().len() == n,
                *self == (MemoryStore { gb_streams: self.gb_streams, ..*old(self) }),
                forall|j: int|
                    i <= j < n ==> #[trigger] self.streams()[j] == old(self).streams()[j],
                forall|j: int|
                    0 <= j < i ==> ({
                        let o = #[trigger] old(self).streams()[j];
                        let nw = self.streams()[j];
                        &&& nw.0 == o.0
                        &&& nw.1 == (GbStreamInfo { to_tag: nw.1.to_tag, ..o.1 })
                        &&& (o.1.from_tag@ == from_tag@ ==> nw.1.to_tag@ == to_tag@)
                        &&& (o.1.from_tag@ != from_tag@ ==> nw.1.to_tag == o.1.to_tag)
                    }),
            decreases n - i,
        {
            if self.gb_streams[i].1.from_tag == ft {
                let ghost before = self.streams();
                let (key, mut rec) = self.gb_streams.remove(i);
                rec.to_tag = to_tag.to_owned();
                self.gb_streams.insert(i, (key, rec));
                proof {
                    assert(self.streams() =~= before.update(
                        i as int,
                        (before[i as int].0, self.streams()[i as int].1),
                    ));
                }
            }
            i += 1;
        }
        proof {
            self.lemma_streams_same_shape_wf(*old(self));
        }
    }

    /// Appends the catalog's channels to the device's sub-device list,
    /// iff the device is registered.
    pub fn save_catalog(&mut self, gb_code: &str, items: Vec<SipSubDeviceInfo>) -> (r: bool)
        requires
            old(self).wf(),
        ensures
            final(self).wf(),
            r == has_key(old(self).devices(), gb_code@),
            !r ==> *final(self) == *old(self),
            r ==> *final(self) == (MemoryStore {
                sip_devices: final(self).sip_devices,
                ..*old(self)
            }),
            r ==> final(self).devices().len() == old(self).devices().len(),
            r ==> ({
                let o = spec_get(old(self).devices(), gb_code@);
                let n = spec_get(final(self).devices(), gb_code@);
                &&& o is Some
                &&& n is Some
                &&& n->Some_0 == (SipDeviceInfo { sub_devices: n->Some_0.sub_devices, ..o->Some_0 })
                &&& n->Some_0.sub_devices is Some
                &&& n->Some_0.sub_devices->Some_0@ == (match o->Some_0.sub_devices {
                    Some(v) => v@,
                    None => Seq::<SipSubDeviceInfo>::empty(),
                }) + items@
            }),
            r ==> forall|k: Seq<char>|
                k != gb_code@ ==> #[trigger] spec_get(final(self).devices(), k) == spec_get(
                    old(self).devices(),
                    k,
                ),
    {
        let i = match find_idx_str(&self.sip_devices, gb_code) {
            None => {
                return false;
            },
            Some(i) => i,
        };
        proof {
            assert(has_key(old(self).devices(), gb_code@));
            lemma_get_at_index(old(self).devices(), gb_code@, i as int);
        }
        let (key, mut rec) = self.sip_devices.remove(i);
        let ghost items0 = items@;
        let mut moved = items;
        match rec.sub_devices {
            None => {
                let mut fresh: Vec<SipSubDeviceInfo> = Vec::new();
                fresh.append(&mut moved);
                proof {
                    assert(fresh@ =~= Seq::<SipSubDeviceInfo>::empty() + items0);
                }
                rec.sub_devices = Some(fresh);
            },
            Some(mut v) => {
                v.append(&mut moved);
                rec.sub_devices = Some(v);
            },
        }
        self.sip_devices.insert(i, (key, rec));
        proof {
            let m = old(self).devices();
            let updated = (*self).devices()[i as int];
            assert((*self).devices() =~= m.update(i as int, updated));
            assert(updated == (m[i as int].0, updated.1));
            lemma_get_update(m, i as int, updated.1, gb_code@);
            assert forall|k: Seq<char>| k != gb_code@ implies #[trigger] spec_get(
                (*self).devices(),
                k,
            ) == spec_get(m, k) by {
                lemma_get_update(m, i as int, updated.1, k);
            }
        }
        true
    }

    /// A device record is stale at `now`.
    pub open spec fn device_timed_out(self, i: int, now: u32) -> bool {
        self.devices()[i].1.ts + self.device_timeout_seconds < now
    }

    /// A stream record is stale at `now`.
    pub open spec fn stream_timed_out(self, i: int, now: u32) -> bool {
        self.streams()[i].1.ts + self.stream_timeout_seconds < now
    }

    /// Some device named `s` is stale at `now`.
    pub open spec fn some_device_timed_out(self, s: Seq<char>, now: u32) -> bool {
        exists|w: int|
            0 <= w < self.devices().len() && (#[trigger] self.devices()[w]).0@ == s
                && self.device_timed_out(w, now)
    }

    /// Some stream keyed `sid` under code `s` is stale at `now`.
    pub open spec fn some_stream_timed_out(self, s: Seq<char>, sid: u32, now: u32) -> bool {
        exists|w: int|
            0 <= w < self.streams().len() && (#[trigger] self.streams()[w]).0 == sid
                && self.streams()[w].1.gb_code@ == s && self.stream_timed_out(w, now)
    }

    /// The GB codes of stale devices and the `(gb_code, stream_id)` pairs
    /// of stale streams at `now`. Nothing is removed: the caller tears
    /// the entries down after its wire-side cleanup.
    pub fn collect_timeouts(&self, now: u32) -> (r: (Vec<String>, Vec<(String, u32)>))
        ensures
            forall|t: int|
                0 <= t < r.0@.len() ==> self.some_device_timed_out((#[trigger] r.0@[t])@, now),
            forall|w: int|
                0 <= w < self.devices().len() && #[trigger] self.device_timed_out(w, now)
                    ==> listed_code(r.0@, self.devices()[w].0@),
            forall|t: int|
                0 <= t < r.1@.len() ==> self.some_stream_timed_out(
                    (#[trigger] r.1@[t]).0@,
                    r.1@[t].1,
                    now,
                ),
            forall|w: int|
                0 <= w < self.streams().len() && #[trigger] self.stream_timed_out(w, now)
                    ==> listed_pair(r.1@, self.streams()[w].1.gb_code@, self.streams()[w].0),
    {
        let mut timeout_devices: Vec<String> = Vec::new();
        let mut timeout_streams: Vec<(String, u32)> = Vec::new();
        let nd = self.sip_devices.len();
        let mut i: usize = 0;
        while i < nd
            invariant
                i <= nd,
                nd == self.devices().len(),
                forall|t: int|
                    0 <= t < timeout_devices@.len() ==> self.some_device_timed_out(
                        (#[trigger] timeout_devices@[t])@,
                        now,
                    ),
                forall|w: int|
                    0 <= w < i && #[trigger] self.device_timed_out(w, now) ==> listed_code(
                        timeout_devices@,
                        self.devices()[w].0@,
                    ),
            decreases nd - i,
        {
            let stale = {
                let ts = self.sip_devices[i].1.ts;
                now > ts && now - ts > self.device_timeout_seconds
            };
            let ghost before = timeout_devices@;
            if stale {
                timeout_devices.push(self.sip_devices[i].0.clone());
            }
            proof {
                if stale {
                    assert(self.device_timed_out(i as int, now));
                    assert(timeout_devices@[before.len() as int]@ == (
                    #[trigger] self.devices()[i as int]).0@);
                    assert(listed_code(timeout_devices@, self.devices()[i as int].0@));
                    assert forall|t: int|
                        0 <= t < timeout_devices@.len() implies self.some_device_timed_out(
                        (#[trigger] timeout_devices@[t])@,
                        now,
                    ) by {
                        if t < before.len() {
                            assert(timeout_devices@[t] == before[t]);
                        }
                    }
                    assert forall|w: int|
                        0 <= w < i + 1 && #[trigger] self.device_timed_out(w, now)
                            implies listed_code(timeout_devices@, self.devices()[w].0@) by {
                        if w < i {
                            let t0 = choose|t0: int|
                                0 <= t0 < before.len() && (#[trigger] before[t0])@
                                    == self.devices()[w].0@;
                            assert(timeout_devices@[t0] == before[t0]);
                        }
                    }
                } else {
                    assert(!self.device_timed_out(i as int, now));
                }
            }
            i += 1;
        }
        let ns = self.gb_streams.len();
        let mut k: usize = 0;
        while k < ns
            invariant
                k <= ns,
                ns == self.streams().len(),
                nd == self.devices().len(),
                forall|t: int|
                    0 <= t < timeout_devices@.len() ==> self.some_device_timed_out(
                        (#[trigger] timeout_devices@[t])@,
                        now,
                    ),
                forall|w: int|
                    0 <= w < nd && #[trigger] self.device_timed_out(w, now) ==> listed_code(
                        timeout_devices@,
                        self.devices()[w].0@,
                    ),
                forall|t: int|
                    0 <= t < timeout_streams@.len() ==> self.some_stream_timed_out(
                        (#[trigger] timeout_streams@[t]).0@,
                        timeout_streams@[t].1,
                        now,
                    ),
                forall|w: int|
                    0 <= w < k && #[trigger] self.stream_timed_out(w, now) ==> listed_pair(
                        timeout_streams@,
                        self.streams()[w].1.gb_code@,
                        self.streams()[w].0,
                    ),
            decreases ns - k,
        {
            let stale = {
                let ts = self.gb_streams[k].1.ts;
                now > ts && now - ts > self.stream_timeout_seconds
            };
            let ghost before = timeout_streams@;
            if stale {
                timeout_streams.push(
                    (self.gb_streams[k].1.gb_code.clone(), self.gb_streams[k].0),
                );
            }
            proof {
                if stale {
                    assert(self.stream_timed_out(k as int, now));
                    assert(timeout_streams@[before.len() as int].0@ == (
                    #[trigger] self.streams()[k as int]).1.gb_code@);
                    assert(timeout_streams@[before.len() as int].1 == self.streams()[k as int].0);
                    assert(listed_pair(
                        timeout_streams@,
                        self.streams()[k as int].1.gb_code@,
                        self.streams()[k as int].0,
                    ));
                    assert forall|t: int|
                        0 <= t < timeout_streams@.len() implies self.some_stream_timed_out(
                        (#[trigger] timeout_streams@[t]).0@,
                        timeout_streams@[t].1,
                        now,
                    ) by {
                        if t < before.len() {
                            assert(timeout_streams@[t] == before[t]);
                        }
                    }
                    assert forall|w: int|
                        0 <= w < k + 1 && #[trigger] self.stream_timed_out(w, now)
                            implies listed_pair(
                        timeout_streams@,
                        self.streams()[w].1.gb_code@,
                        self.streams()[w].0,
                    ) by {
                        if w < k {
                            let t0 = choose|t0: int|
                                0 <= t0 < before.len() && (#[trigger] before[t0]).0@
                                    == self.streams()[w].1.gb_code@ && before[t0].1
                                    == self.streams()[w].0;
                            assert(timeout_streams@[t0] == before[t0]);
                        }
                    }
                } else {
                    assert(!self.stream_timed_out(k as int, now));
                }
            }
            k += 1;
        }
        (timeout_devices, timeout_streams)
    }

    /// Opening a stream with `invite` and closing the same
    /// `(gb_code, stream_id)` pair with `bye` leaves the reverse-index
    /// list for that device exactly as long as before the pair — and
    /// absent again when it did not exist before. The premises are what
    /// `invite` (`s0` to `s1`) and `bye` (`s1` to `s2`) ensure about the
    /// reverse index.
    pub proof fn lemma_invite_bye_restores_rev(
        s0: MemoryStore,
        s1: MemoryStore,
        s2: MemoryStore,
        g: Seq<char>,
        sid: u32,
    )
        requires
            match spec_get(s0.rev(), g) {
                Some(l) => l@.len() > 0,
                None => true,
            },
            spec_get(s1.rev(), g) is Some,
            spec_get(s1.rev(), g)->Some_0@ == (match spec_get(s0.rev(), g) {
                Some(l) => l@.push(sid),
                None => seq![sid],
            }),
            forall|k: Seq<char>|
                k != g ==> #[trigger] spec_get(s1.rev(), k) == spec_get(s0.rev(), k),
            ({
                let oldl = spec_get(s1.rev(), g);
                if oldl->Some_0@.len() == 1 {
                    !has_key(s2.rev(), g)
                } else {
                    spec_get(s2.rev(), g) is Some && spec_get(s2.rev(), g)->Some_0@.len()
                        == oldl->Some_0@.len() - 1
                }
            }),
            forall|k: Seq<char>|
                k != g ==> #[trigger] spec_get(s2.rev(), k) == spec_get(s1.rev(), k),
        ensures
            match spec_get(s0.rev(), g) {
                Some(l) => spec_get(s2.rev(), g) is Some && spec_get(s2.rev(), g)->Some_0@.len()
                    == l@.len(),
                None => !has_key(s2.rev(), g),
            },
            forall|k: Seq<char>|
                k != g ==> #[trigger] spec_get(s2.rev(), k) == spec_get(s0.rev(), k),
    {
        lemma_get_some_iff_has_key(s2.rev(), g);
    }

    /// Marks the sweeper as running; the surrounding program drives the
    /// periodic `collect_timeouts` scan while the flag is down.
    pub fn start_timeout_check(&mut self)
        ensures
            *final(self) == (MemoryStore { quit_flag: false, ..*old(self) }),
    {
        self.quit_flag = false;
    }

    /// Asks the sweeper loop to stop at its next tick.
    pub fn stop_timeout_check(&mut self)
        ensures
            *final(self) == (MemoryStore { quit_flag: true, ..*old(self) }),
    {
        self.quit_flag = true;
    }

    /// The media endpoint recorded for the stream `(gb_code, stream_id)`,
    /// when that pair exists.
    pub fn find_stream_info(&self, gb_code: &str, stream_id: u32) -> (r: Option<StreamInfo>)
        requires
            self.wf(),
        ensures
            match r {
                Some(si) => stream_has_code(self.streams(), stream_id, gb_code@) && ({
                    let s = spec_get(self.streams(), stream_id)->Some_0;
                    &&& si.gb_code@ == s.gb_code@
                    &&& si.stream_server_ip@ == s.stream_server_ip@
                    &&& si.stream_server_port == s.stream_server_port
                }),
                None => !stream_has_code(self.streams(), stream_id, gb_code@),
            },
    {
        match find_idx_u32(&self.gb_streams, stream_id) {
            None => {
                proof {
                    lemma_get_some_iff_has_key(self.streams(), stream_id);
                }
                None
            },
            Some(i) => {
                proof {
                    lemma_get_at_index(self.streams(), stream_id, i as int);
                }
                let ks: String = gb_code.to_owned();
                if self.gb_streams[i].1.gb_code == ks {
                    let rec = &self.gb_streams[i].1;
                    Some(
                        StreamInfo {
                            gb_code: rec.gb_code.clone(),
                            stream_server_ip: rec.stream_server_ip.clone(),
                            stream_server_port: rec.stream_server_port,
                        },
                    )
                } else {
                    None
                }
            },
        }
    }

    /// The GB code of the first stream whose dialog Call-ID is `key`.
    pub fn find_gb_code_by_caller_id(&self, key: &str) -> (r: Option<String>)
        ensures
            match r {
                Some(g) => exists|i: int|
                    0 <= i < self.streams().len() && (#[trigger] self.streams()[i]).1.caller_id@
                        == key@ && self.streams()[i].1.gb_code@ == g@,
                None => forall|i: int|
                    0 <= i < self.streams().len() ==> (#[trigger] self.streams()[i]).1.caller_id@
                        != key@,
            },
    {
        let ks: String = key.to_owned();
        let n = self.gb_streams.len();
        let mut i: usize = 0;
        while i < n
            invariant
                i <= n,
                n == self.streams().len(),
                ks@ == key@,
                forall|j: int|
                    0 <= j < i ==> (#[trigger] self.streams()[j]).1.caller_id@ != key@,
            decreases n - i,
        {
            if self.gb_streams[i].1.caller_id == ks {
                return Some(self.gb_streams[i].1.gb_code.clone());
            }
            i += 1;
        }
        None
    }
}

} // verus!
