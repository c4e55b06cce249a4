//! The command dispatcher: from a parsed command to reply frames and
//! enumerated side effects, free of any socket handling.
//!
//! The connection driver around the library performs the writes this
//! module only describes: it sends the reply frames in order, registers
//! the connection as a replica link when asked to, and hands any
//! propagation frame to every registered replica link.

use vstd::prelude::*;

use crate::config::w_dbfilename;
use crate::config::w_dir;
use crate::db::keys_complete;
use crate::db::keys_distinct;
use crate::db::keys_sound;
use crate::db::live;
use crate::digits::dec_rep;
use crate::digits::u64_to_dec;
use crate::parse::Command;
use crate::parse::CommandV;
use crate::parse::Expiry;
use crate::parse::command_args;
use crate::resp::bytes_view;
use crate::resp::clone_bytes;
use crate::resp::emit_array;
use crate::resp::emit_bulk;
use crate::resp::emit_nil;
use crate::resp::emit_simple;
use crate::resp::encode_array;
use crate::resp::encode_bulk;
use crate::resp::encode_nil;
use crate::resp::encode_simple;
use crate::resp::spec_crlf;
use crate::store::Config;
use crate::store::ServerMode;
use crate::store::Store;
use crate::store::Value;
use crate::store::ValueV;
use crate::utils::EMPTY_RDB_HEX;
use crate::utils::empty_rdb_bytes;
use crate::utils::hex_decode;
use vstd::string::StringSliceAdditionalSpecFns;

verus! {

/// The ASCII bytes of `PONG`.
pub open spec fn w_pong() -> Seq<u8> {
    seq![80u8, 79u8, 78u8, 71u8]
}

/// The ASCII bytes of `OK`.
pub open spec fn w_ok() -> Seq<u8> {
    seq![79u8, 75u8]
}

/// The ASCII bytes of `REPLCONF ACK 0`.
pub open spec fn w_replconf_ack() -> Seq<u8> {
    seq![82u8, 69u8, 80u8, 76u8, 67u8, 79u8, 78u8, 70u8, 32u8, 65u8, 67u8, 75u8, 32u8, 48u8]
}

/// The ASCII bytes of `FULLRESYNC`.
pub open spec fn w_fullresync() -> Seq<u8> {
    seq![70u8, 85u8, 76u8, 76u8, 82u8, 69u8, 83u8, 89u8, 78u8, 67u8]
}

/// The ASCII bytes of `replication`.
pub open spec fn w_replication() -> Seq<u8> {
    seq![114u8, 101u8, 112u8, 108u8, 105u8, 99u8, 97u8, 116u8, 105u8, 111u8, 110u8]
}

/// The ASCII bytes of `role:master`.
pub open spec fn w_role_master() -> Seq<u8> {
    seq![114u8, 111u8, 108u8, 101u8, 58u8, 109u8, 97u8, 115u8, 116u8, 101u8, 114u8]
}

/// The ASCII bytes of `role:slave`.
pub open spec fn w_role_slave() -> Seq<u8> {
    seq![114u8, 111u8, 108u8, 101u8, 58u8, 115u8, 108u8, 97u8, 118u8, 101u8]
}

/// The ASCII bytes of `master_replid:`.
pub open spec fn w_replid_label() -> Seq<u8> {
    seq![
        109u8,
        97u8,
        115u8,
        116u8,
        101u8,
        114u8,
        95u8,
        114u8,
        101u8,
        112u8,
        108u8,
        105u8,
        100u8,
        58u8,
    ]
}

/// The ASCII bytes of `master_repl_offset:`.
pub open spec fn w_offset_label() -> Seq<u8> {
    seq![
        109u8,
        97u8,
        115u8,
        116u8,
        101u8,
        114u8,
        95u8,
        114u8,
        101u8,
        112u8,
        108u8,
        95u8,
        111u8,
        102u8,
        102u8,
        115u8,
        101u8,
        116u8,
        58u8,
    ]
}

/// ASCII lower-casing of one byte.
pub open spec fn lower(b: u8) -> u8 {
    if 65 <= b <= 90 {
        (b + 32) as u8
    } else {
        b
    }
}

/// ASCII lower-casing of a byte string.
pub open spec fn lower_seq(s: Seq<u8>) -> Seq<u8> {
    Seq::new(s.len(), |i: int| lower(s[i]))
}

/// ASCII lower-cases a byte string.
#[verifier::loop_isolation(false)]
fn to_lower(v: &Vec<u8>) -> (r: Vec<u8>)
    ensures
        r@ == lower_seq(v@),
{
    let mut r: Vec<u8> = Vec::new();
    let mut i: usize = 0;
    while i < v.len()
        invariant
            i <= v.len(),
            r@ =~= lower_seq(v@).subrange(0, i as int),
        decreases v.len() - i,
    {
        let b = v[i];
        if 65 <= b && b <= 90 {
            r.push(b + 32);
        } else {
            r.push(b);
        }
        proof {
            assert(r@ =~= lower_seq(v@).subrange(0, i + 1 as int));
        }
        i = i + 1;
    }
    proof {
        assert(lower_seq(v@).subrange(0, v@.len() as int) =~= lower_seq(v@));
    }
    r
}

/// The `role:...` line announced by `INFO replication`.
pub open spec fn role_line(mode: ServerMode) -> Seq<u8> {
    match mode {
        ServerMode::Master => w_role_master(),
        ServerMode::Replica => w_role_slave(),
    }
}

/// The payload of the `INFO replication` reply: the role line, the
/// replication id and the offset, newline-separated.
pub open spec fn info_payload(mode: ServerMode, replid: Seq<u8>, offset: u64) -> Seq<u8> {
    role_line(mode) + seq![10u8] + w_replid_label() + replid + seq![10u8] + w_offset_label()
        + dec_rep(offset as nat)
}

/// The payload of the `FULLRESYNC` reply: the word, the replication id
/// and the offset, space-separated.
pub open spec fn fullresync_payload(replid: Seq<u8>, offset: u64) -> Seq<u8> {
    w_fullresync() + seq![32u8] + replid + seq![32u8] + dec_rep(offset as nat)
}

/// The raw snapshot frame sent after `FULLRESYNC`: a length header and
/// the blob itself, with no trailing terminator.
pub open spec fn snapshot_frame(blob: Seq<u8>) -> Seq<u8> {
    seq![36u8] + dec_rep(blob.len()) + spec_crlf() + blob
}

/// The deadline a `SET` expiry resolves to, if any.
pub open spec fn deadline_of(e: Option<Expiry>) -> Option<u64> {
    match e {
        Some(x) => Some(x.deadline_ms),
        None => None,
    }
}

/// What the dispatcher asks the connection driver to do: the reply
/// frames to write in order; whether to register this connection's
/// write end as a replica link; and a frame to fan out to every
/// registered replica link, if the command is to be replicated.
pub struct DispatchResult {
    pub replies: Vec<Vec<u8>>,
    pub register_replica: bool,
    pub propagate: Option<Vec<u8>>,
}

impl DispatchResult {
    /// The reply frames, as byte strings.
    pub open spec fn replies_view(&self) -> Seq<Seq<u8>> {
        bytes_view(self.replies@)
    }

    /// The propagation frame, as a byte string.
    pub open spec fn propagate_view(&self) -> Option<Seq<u8>> {
        match self.propagate {
            Some(p) => Some(p@),
            None => None,
        }
    }

    /// No side effects asked for.
    pub open spec fn no_effects(&self) -> bool {
        !self.register_replica && self.propagate is None
    }
}

/// Wraps one reply frame.
fn one_reply(frame: Vec<u8>) -> (r: Vec<Vec<u8>>)
    ensures
        bytes_view(r@) =~= seq![frame@],
{
    let mut replies: Vec<Vec<u8>> = Vec::new();
    replies.push(frame);
    replies
}

/// Dispatches one parsed command against client database 0, at clock
/// reading `now` (milliseconds since the epoch).
///
/// The contract enumerates, for every command, the exact reply bytes,
/// the store change, and the side effects:
/// `PING`/`ECHO` answer from the command alone; `GET`/`SET`/`KEYS`
/// read and write database 0 with lazy expiry; `CONFIG GET` and `INFO`
/// answer from the configuration; `REPLCONF` is acknowledged;
/// `REPLCONF GETACK` earns the acknowledgment reply; `PSYNC` earns the
/// `FULLRESYNC` reply plus the raw empty-snapshot frame and asks for
/// this connection to be registered as a replica link. A `SET` on a
/// primary also asks for its own wire form to be fanned out.
#[verifier::rlimit(30)]
pub fn handle_connection(command: &Command, config: &Config, store: &mut Store, now: u64) -> (r:
    DispatchResult)
    requires
        old(store).wf(),
    ensures
        final(store).wf(),
        command@ matches CommandV::Ping ==> (r.replies_view() == seq![encode_simple(w_pong())]
            && final(store)@ == old(store)@ && r.no_effects()),
        command@ matches CommandV::Echo(s) ==> (r.replies_view() == seq![encode_bulk(s)]
            && final(store)@ == old(store)@ && r.no_effects()),
        command@ matches CommandV::Get(k) ==> {
            let m = old(store)@[0];
            &&& r.no_effects()
            &&& (m.contains_key(k) && live(m[k], now) ==> r.replies_view() == seq![
                encode_bulk(m[k].value),
            ] && final(store)@ == old(store)@)
            &&& (m.contains_key(k) && !live(m[k], now) ==> r.replies_view() == seq![encode_nil()]
                && final(store)@ == old(store)@.update(0, m.remove(k)))
            &&& (!m.contains_key(k) ==> r.replies_view() == seq![encode_nil()] && final(store)@
                == old(store)@)
        },
        command@ matches CommandV::Put(k, v, e) ==> {
            &&& r.replies_view() == seq![encode_simple(w_ok())]
            &&& final(store)@ == old(store)@.update(
                0,
                old(store)@[0].insert(k, ValueV { value: v, expiry: deadline_of(e) }),
            )
            &&& !r.register_replica
            &&& (config.mode == ServerMode::Master ==> r.propagate_view() == Some(
                encode_array(command_args(command@)),
            ))
            &&& (config.mode == ServerMode::Replica ==> r.propagate is None)
        },
        command@ matches CommandV::GetConfig(name) ==> {
            &&& final(store)@ == old(store)@
            &&& r.no_effects()
            &&& (lower_seq(name) == w_dir() ==> r.replies_view() == match config.dir {
                Some(d) => seq![encode_array(seq![name, d@])],
                None => seq![encode_nil()],
            })
            &&& (lower_seq(name) == w_dbfilename() ==> r.replies_view() == match config.dbfilename {
                Some(d) => seq![encode_array(seq![name, d@])],
                None => seq![encode_nil()],
            })
            &&& (lower_seq(name) != w_dir() && lower_seq(name) != w_dbfilename()
                ==> r.replies_view() == seq![encode_nil()])
        },
        command@ matches CommandV::Keys(p) ==> {
            &&& final(store)@ == old(store)@
            &&& r.no_effects()
            &&& (p == seq![42u8] ==> exists|ks: Seq<Seq<u8>>|
                keys_complete(old(store)@[0], ks) && keys_sound(old(store)@[0], ks)
                    && keys_distinct(ks) && r.replies_view() == seq![#[trigger] encode_array(ks)])
            &&& (p != seq![42u8] ==> r.replies_view() == seq![encode_nil()])
        },
        command@ matches CommandV::Info(section) ==> {
            &&& final(store)@ == old(store)@
            &&& r.no_effects()
            &&& (lower_seq(section) == w_replication() ==> r.replies_view() == seq![
                encode_bulk(
                    info_payload(config.mode, config.master_replid@, config.master_repl_offset),
                ),
            ])
            &&& (lower_seq(section) != w_replication() ==> r.replies_view() == seq![encode_nil()])
        },
        command@ matches CommandV::ReplConf(a) ==> (r.replies_view() == seq![
            encode_simple(w_ok()),
        ] && final(store)@ == old(store)@ && r.no_effects()),
        command@ matches CommandV::ReplConfAck ==> (r.replies_view() == seq![
            encode_bulk(w_replconf_ack()),
        ] && final(store)@ == old(store)@ && r.no_effects()),
        command@ matches CommandV::Psync(a) ==> {
            &&& r.replies_view() == seq![
                encode_simple(
                    fullresync_payload(config.master_replid@, config.master_repl_offset),
                ),
                snapshot_frame(hex_decode(EMPTY_RDB_HEX.spec_bytes())),
            ]
            &&& final(store)@ == old(store)@
            &&& r.register_replica
            &&& r.propagate is None
        },
{
    match command {
        Command::Ping => {
            let pong = vec![80u8, 79u8, 78u8, 71u8];
            proof {
                assert(pong@ =~= w_pong());
            }
            DispatchResult {
                replies: one_reply(emit_simple(&pong)),
                register_replica: false,
                propagate: None,
            }
        },
        Command::Echo(s) => DispatchResult {
            replies: one_reply(emit_bulk(s)),
            register_replica: false,
            propagate: None,
        },
        Command::Get(k) => {
            let got = store.db_get(0, k, now);
            let frame = match got {
                Ok(Some(v)) => emit_bulk(&v),
                Ok(None) => emit_nil(),
                Err(_) => emit_nil(),
            };
            DispatchResult {
                replies: one_reply(frame),
                register_replica: false,
                propagate: None,
            }
        },
        Command::Put(k, v, e) => {
            let value = Value {
                value: clone_bytes(v),
                expiry: match e {
                    Some(x) => Some(x.deadline_ms),
                    None => None,
                },
            };
            let set_r = store.db_set(0, clone_bytes(k), value);
            proof {
                assert(set_r is Ok);
            }
            let propagate = if matches!(config.mode, ServerMode::Master) {
                Some(command.encode())
            } else {
                None
            };
            let ok = vec![79u8, 75u8];
            proof {
                assert(ok@ =~= w_ok());
            }
            DispatchResult {
                replies: one_reply(emit_simple(&ok)),
                register_replica: false,
                propagate,
            }
        },
        Command::GetConfig(name) => {
            let ln = to_lower(name);
            let dir_word = vec![100u8, 105u8, 114u8];
            let dbf_word = vec![
                100u8,
                98u8,
                102u8,
                105u8,
                108u8,
                101u8,
                110u8,
                97u8,
                109u8,
                101u8,
            ];
            proof {
                assert(dir_word@ =~= w_dir());
                assert(dbf_word@ =~= w_dbfilename());
            }
            let frame = if crate::resp::eq_bytes(&ln, &dir_word) {
                match &config.dir {
                    Some(d) => {
                        let mut parts: Vec<Vec<u8>> = Vec::new();
                        parts.push(clone_bytes(name));
                        parts.push(clone_bytes(d));
                        proof {
                            assert(bytes_view(parts@) =~= seq![name@, d@]);
                        }
                        emit_array(&parts)
                    },
                    None => emit_nil(),
                }
            } else if crate::resp::eq_bytes(&ln, &dbf_word) {
                match &config.dbfilename {
                    Some(d) => {
                        let mut parts: Vec<Vec<u8>> = Vec::new();
                        parts.push(clone_bytes(name));
                        parts.push(clone_bytes(d));
                        proof {
                            assert(bytes_view(parts@) =~= seq![name@, d@]);
                        }
                        emit_array(&parts)
                    },
                    None => emit_nil(),
                }
            } else {
                emit_nil()
            };
            DispatchResult {
                replies: one_reply(frame),
                register_replica: false,
                propagate: None,
            }
        },
        Command::Keys(p) => {
            let star = vec![42u8];
            proof {
                assert(star@ =~= seq![42u8]);
            }
            let frame = if crate::resp::eq_bytes(p, &star) {
                match store.db_list_keys(0) {
                    Ok(ks) => {
                        let out = emit_array(&ks);
                        proof {
                            let ghost kv = bytes_view(ks@);
                            assert(keys_complete(store@[0], kv) && keys_sound(store@[0], kv)
                                && keys_distinct(kv) && out@ == encode_array(kv));
                        }
                        out
                    },
                    Err(_) => emit_nil(),
                }
            } else {
                emit_nil()
            };
            DispatchResult {
                replies: one_reply(frame),
                register_replica: false,
                propagate: None,
            }
        },
        Command::Info(section) => {
            let ls = to_lower(section);
            let repl_word = vec![
                114u8,
                101u8,
                112u8,
                108u8,
                105u8,
                99u8,
                97u8,
                116u8,
                105u8,
                111u8,
                110u8,
            ];
            proof {
                assert(repl_word@ =~= w_replication());
            }
            let frame = if crate::resp::eq_bytes(&ls, &repl_word) {
                let mut payload: Vec<u8> = match config.mode {
                    ServerMode::Master => vec![
                        114u8,
                        111u8,
                        108u8,
                        101u8,
                        58u8,
                        109u8,
                        97u8,
                        115u8,
                        116u8,
                        101u8,
                        114u8,
                    ],
                    ServerMode::Replica => vec![
                        114u8,
                        111u8,
                        108u8,
                        101u8,
                        58u8,
                        115u8,
                        108u8,
                        97u8,
                        118u8,
                        101u8,
                    ],
                };
                proof {
                    assert(payload@ =~= role_line(config.mode));
                }
                payload.push(10);
                let mut label = vec![
                    109u8,
                    97u8,
                    115u8,
                    116u8,
                    101u8,
                    114u8,
                    95u8,
                    114u8,
                    101u8,
                    112u8,
                    108u8,
                    105u8,
                    100u8,
                    58u8,
                ];
                proof {
                    assert(label@ =~= w_replid_label());
                }
                payload.append(&mut label);
                let mut replid = clone_bytes(&config.master_replid);
                payload.append(&mut replid);
                payload.push(10);
                let mut label2 = vec![
                    109u8,
                    97u8,
                    115u8,
                    116u8,
                    101u8,
                    114u8,
                    95u8,
                    114u8,
                    101u8,
                    112u8,
                    108u8,
                    95u8,
                    111u8,
                    102u8,
                    102u8,
                    115u8,
                    101u8,
                    116u8,
                    58u8,
                ];
                proof {
                    assert(label2@ =~= w_offset_label());
                }
                payload.append(&mut label2);
                let mut digits = u64_to_dec(config.master_repl_offset);
                payload.append(&mut digits);
                proof {
                    assert(payload@ =~= info_payload(
                        config.mode,
                        config.master_replid@,
                        config.master_repl_offset,
                    ));
                }
                emit_bulk(&payload)
            } else {
                emit_nil()
            };
            DispatchResult {
                replies: one_reply(frame),
                register_replica: false,
                propagate: None,
            }
        },
        Command::ReplConf(_) => {
            let ok = vec![79u8, 75u8];
            proof {
                assert(ok@ =~= w_ok());
            }
            DispatchResult {
                replies: one_reply(emit_simple(&ok)),
                register_replica: false,
                propagate: None,
            }
        },
        Command::ReplConfAck => {
            let ack = vec![
                82u8,
                69u8,
                80u8,
                76u8,
                67u8,
                79u8,
                78u8,
                70u8,
                32u8,
                65u8,
                67u8,
                75u8,
                32u8,
                48u8,
            ];
            proof {
                assert(ack@ =~= w_replconf_ack());
            }
            DispatchResult {
                replies: one_reply(emit_bulk(&ack)),
                register_replica: false,
                propagate: None,
            }
        },
        Command::Psync(_) => {
            let mut payload = vec![70u8, 85u8, 76u8, 76u8, 82u8, 69u8, 83u8, 89u8, 78u8, 67u8];
            proof {
                assert(payload@ =~= w_fullresync());
            }
            payload.push(32);
            let mut replid = clone_bytes(&config.master_replid);
            payload.append(&mut replid);
            payload.push(32);
            let mut digits = u64_to_dec(config.master_repl_offset);
            payload.append(&mut digits);
            proof {
                assert(payload@ =~= fullresync_payload(
                    config.master_replid@,
                    config.master_repl_offset,
                ));
            }
            let blob = empty_rdb_bytes();
            let mut raw: Vec<u8> = Vec::new();
            raw.push(36);
            let mut len_digits = u64_to_dec(blob.len() as u64);
            raw.append(&mut len_digits);
            raw.push(13);
            raw.push(10);
            let mut body = blob;
            raw.append(&mut body);
            proof {
                assert(raw@ =~= snapshot_frame(hex_decode(EMPTY_RDB_HEX.spec_bytes())));
            }
            let mut replies: Vec<Vec<u8>> = Vec::new();
            replies.push(emit_simple(&payload));
            replies.push(raw);
            proof {
                assert(bytes_view(replies@) =~= seq![
                    encode_simple(
                        fullresync_payload(config.master_replid@, config.master_repl_offset),
                    ),
                    snapshot_frame(hex_decode(EMPTY_RDB_HEX.spec_bytes())),
                ]);
            }
            DispatchResult { replies, register_replica: true, propagate: None }
        },
    }
}

} // verus!
