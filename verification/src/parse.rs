//! From wire bytes to commands: the streaming buffer reader and the
//! command parser.
//!
//! Command names are matched case-insensitively, as are the subcommand
//! words `GETACK`, `GET`, `PX` and `EX`.

use vstd::prelude::*;

use crate::digits::all_digits;
use crate::digits::dec_rep;
use crate::digits::dec_val;
use crate::digits::is_digit;
use crate::digits::lemma_dec_rep_digits;
use crate::digits::lemma_dec_rep_len_u64;
use crate::digits::lemma_dec_val_of_rep;
use crate::digits::lemma_dec_val_prefix;
use crate::digits::u64_to_dec;
use crate::resp::emit_array;
use crate::resp::encode_array;
use crate::resp::MAX_MESSAGE_SIZE;
use crate::resp_laws::frame_wf;
use crate::resp_laws::lemma_decode_of_encode;
use crate::resp::Frame;
use crate::resp::ResponseErrors;
use crate::resp::StreamV;
use crate::resp::bytes_view;
use crate::resp::clone_bytes;
use crate::resp::decode_frame;
use crate::resp::DecodeStep;
use crate::resp::eq_bytes;
use crate::resp::frames_view;
use crate::resp::FrameV;
use crate::resp::lemma_prepend_stream_empty;
use crate::resp::lemma_prepend_stream_push;
use crate::resp::prepend_stream;
use crate::resp::spec_decode_at;
use crate::resp::spec_decode_stream;
use crate::resp::StepV;

verus! {

/// A `SET` deadline: the relative duration from the wire, and the
/// absolute wall-clock deadline it was resolved to, both in
/// milliseconds.
#[derive(Clone, Copy, Debug, PartialEq, Eq, Structural)]
pub struct Expiry {
    /// The duration carried by `PX`/`EX`, in milliseconds.
    pub px_ms: u64,
    /// The absolute deadline: the clock reading at parse time plus
    /// `px_ms`.
    pub deadline_ms: u64,
}

/// A parsed client command. Keys, values and patterns are byte strings:
/// nothing here assumes text.
#[derive(Clone, Debug)]
pub enum Command {
    Ping,
    Echo(Vec<u8>),
    ReplConf(Vec<u8>),
    ReplConfAck,
    Psync(Vec<Vec<u8>>),
    Get(Vec<u8>),
    /// The SET command: key, value, optional deadline.
    Put(Vec<u8>, Vec<u8>, Option<Expiry>),
    GetConfig(Vec<u8>),
    Keys(Vec<u8>),
    Info(Vec<u8>),
}

/// The mathematical value of a [`Command`].
pub ghost enum CommandV {
    Ping,
    Echo(Seq<u8>),
    ReplConf(Seq<u8>),
    ReplConfAck,
    Psync(Seq<Seq<u8>>),
    Get(Seq<u8>),
    Put(Seq<u8>, Seq<u8>, Option<Expiry>),
    GetConfig(Seq<u8>),
    Keys(Seq<u8>),
    Info(Seq<u8>),
}

impl View for Command {
    type V = CommandV;

    open spec fn view(&self) -> CommandV {
        match self {
            Command::Ping => CommandV::Ping,
            Command::Echo(s) => CommandV::Echo(s@),
            Command::ReplConf(s) => CommandV::ReplConf(s@),
            Command::ReplConfAck => CommandV::ReplConfAck,
            Command::Psync(args) => CommandV::Psync(bytes_view(args@)),
            Command::Get(k) => CommandV::Get(k@),
            Command::Put(k, v, e) => CommandV::Put(k@, v@, *e),
            Command::GetConfig(k) => CommandV::GetConfig(k@),
            Command::Keys(p) => CommandV::Keys(p@),
            Command::Info(s) => CommandV::Info(s@),
        }
    }
}

/// Why a well-framed request still failed to parse as a command.
#[derive(Clone, Copy, Debug, PartialEq, Eq, Structural)]
pub enum ParseError {
    /// `SET` named `PX`/`EX` but gave no usable duration, or the
    /// deadline would not fit the clock.
    InvalidExpiryDuration,
    /// `SET` carried an option other than `PX`/`EX`.
    InvalidArgument,
    /// `CONFIG` with a subcommand other than `GET`.
    OnlyConfigGet,
    /// `CONFIG` without a subcommand.
    InvalidCommand,
    /// An unknown command name.
    CommandNotSupported,
}

// ------------------------------------------------------------------
// Case folding and the command words.
// ------------------------------------------------------------------

/// ASCII upper-casing of one byte.
pub open spec fn upper(b: u8) -> u8 {
    if 97 <= b <= 122 {
        (b - 32) as u8
    } else {
        b
    }
}

/// ASCII upper-casing of a byte string.
pub open spec fn upper_seq(s: Seq<u8>) -> Seq<u8> {
    Seq::new(s.len(), |i: int| upper(s[i]))
}

/// ASCII upper-cases a byte string.
#[verifier::loop_isolation(false)]
pub fn to_upper(v: &Vec<u8>) -> (r: Vec<u8>)
    ensures
        r@ == upper_seq(v@),
{
    let mut r: Vec<u8> = Vec::new();
    let mut i: usize = 0;
    while i < v.len()
        invariant
            i <= v.len(),
            r@ =~= upper_seq(v@).subrange(0, i as int),
        decreases v.len() - i,
    {
        let b = v[i];
        if 97 <= b && b <= 122 {
            r.push(b - 32);
        } else {
            r.push(b);
        }
        proof {
            assert(r@ =~= upper_seq(v@).subrange(0, i + 1 as int));
        }
        i = i + 1;
    }
    proof {
        assert(upper_seq(v@).subrange(0, v@.len() as int) =~= upper_seq(v@));
    }
    r
}

pub open spec fn w_ping() -> Seq<u8> {
    seq![80u8, 73u8, 78u8, 71u8]
}

pub open spec fn w_echo() -> Seq<u8> {
    seq![69u8, 67u8, 72u8, 79u8]
}

pub open spec fn w_replconf() -> Seq<u8> {
    seq![82u8, 69u8, 80u8, 76u8, 67u8, 79u8, 78u8, 70u8]
}

pub open spec fn w_getack() -> Seq<u8> {
    seq![71u8, 69u8, 84u8, 65u8, 67u8, 75u8]
}

pub open spec fn w_psync() -> Seq<u8> {
    seq![80u8, 83u8, 89u8, 78u8, 67u8]
}

pub open spec fn w_get() -> Seq<u8> {
    seq![71u8, 69u8, 84u8]
}

pub open spec fn w_set() -> Seq<u8> {
    seq![83u8, 69u8, 84u8]
}

pub open spec fn w_px() -> Seq<u8> {
    seq![80u8, 88u8]
}

pub open spec fn w_ex() -> Seq<u8> {
    seq![69u8, 88u8]
}

pub open spec fn w_config() -> Seq<u8> {
    seq![67u8, 79u8, 78u8, 70u8, 73u8, 71u8]
}

pub open spec fn w_keys() -> Seq<u8> {
    seq![75u8, 69u8, 89u8, 83u8]
}

pub open spec fn w_info() -> Seq<u8> {
    seq![73u8, 78u8, 70u8, 79u8]
}

// ------------------------------------------------------------------
// The specification-level parser.
// ------------------------------------------------------------------

/// The argument at `i`, or the empty byte string where the request is
/// short: absent keys and values are treated as empty, as plain
/// client-facing tolerance.
pub open spec fn arg_or_empty(args: Seq<Seq<u8>>, i: int) -> Seq<u8> {
    if 0 <= i < args.len() {
        args[i]
    } else {
        Seq::empty()
    }
}

/// What `SET` parses to: `SET key value [PX|EX millis]`. Both duration
/// words denote milliseconds. The deadline is resolved against `now`
/// at parse time; a duration that is not a plain run of digits, or a
/// deadline past the clock's range, is refused.
pub open spec fn spec_parse_set(args: Seq<Seq<u8>>, now: u64) -> Result<CommandV, ParseError> {
    let key = arg_or_empty(args, 1);
    let val = arg_or_empty(args, 2);
    if args.len() <= 3 {
        Ok(CommandV::Put(key, val, None))
    } else {
        let opt = upper_seq(args[3]);
        if opt == w_px() || opt == w_ex() {
            if args.len() <= 4 {
                Err(ParseError::InvalidExpiryDuration)
            } else {
                let ds = args[4];
                if ds.len() >= 1 && all_digits(ds) && dec_val(ds) <= u64::MAX {
                    if now + dec_val(ds) <= u64::MAX {
                        Ok(
                            CommandV::Put(
                                key,
                                val,
                                Some(
                                    Expiry {
                                        px_ms: dec_val(ds) as u64,
                                        deadline_ms: (now + dec_val(ds)) as u64,
                                    },
                                ),
                            ),
                        )
                    } else {
                        Err(ParseError::InvalidExpiryDuration)
                    }
                } else {
                    Err(ParseError::InvalidExpiryDuration)
                }
            }
        } else {
            Err(ParseError::InvalidArgument)
        }
    }
}

/// What a request parses to. The command word is folded to upper case;
/// `KEYS` with an explicitly empty pattern stands for `KEYS *`.
pub open spec fn spec_parse_command(args: Seq<Seq<u8>>, now: u64) -> Result<CommandV, ParseError>
    recommends
        args.len() >= 1,
{
    let cmd = upper_seq(args[0]);
    if cmd == w_ping() {
        Ok(CommandV::Ping)
    } else if cmd == w_echo() {
        Ok(CommandV::Echo(arg_or_empty(args, 1)))
    } else if cmd == w_replconf() {
        if args.len() >= 2 {
            if upper_seq(args[1]) == w_getack() {
                Ok(CommandV::ReplConfAck)
            } else {
                Ok(CommandV::ReplConf(args[1]))
            }
        } else {
            Ok(CommandV::ReplConf(Seq::empty()))
        }
    } else if cmd == w_psync() {
        Ok(CommandV::Psync(args.drop_first()))
    } else if cmd == w_get() {
        Ok(CommandV::Get(arg_or_empty(args, 1)))
    } else if cmd == w_set() {
        spec_parse_set(args, now)
    } else if cmd == w_config() {
        if args.len() >= 2 {
            if upper_seq(args[1]) == w_get() {
                Ok(CommandV::GetConfig(arg_or_empty(args, 2)))
            } else {
                Err(ParseError::OnlyConfigGet)
            }
        } else {
            Err(ParseError::InvalidCommand)
        }
    } else if cmd == w_keys() {
        if args.len() >= 2 && args[1].len() == 0 {
            Ok(CommandV::Keys(seq![42u8]))
        } else {
            Ok(CommandV::Keys(arg_or_empty(args, 1)))
        }
    } else if cmd == w_info() {
        Ok(CommandV::Info(arg_or_empty(args, 1)))
    } else {
        Err(ParseError::CommandNotSupported)
    }
}

// ------------------------------------------------------------------
// The executable parser.
// ------------------------------------------------------------------

/// The argument at `i`, or an empty byte string.
fn get_arg(cmd_vec: &Vec<Vec<u8>>, i: usize) -> (r: Vec<u8>)
    ensures
        r@ == arg_or_empty(bytes_view(cmd_vec@), i as int),
{
    if i < cmd_vec.len() {
        clone_bytes(&cmd_vec[i])
    } else {
        let r: Vec<u8> = Vec::new();
        proof {
            assert(r@ =~= Seq::<u8>::empty());
        }
        r
    }
}

/// Reads a whole byte string as a decimal duration; anything that is
/// not a plain run of digits, or does not fit `u64`, is refused.
#[verifier::loop_isolation(false)]
pub fn parse_u64(ds: &Vec<u8>) -> (r: Option<u64>)
    ensures
        match r {
            Some(n) => ds@.len() >= 1 && all_digits(ds@) && dec_val(ds@) <= u64::MAX && n == dec_val(
                ds@,
            ),
            None => !(ds@.len() >= 1 && all_digits(ds@) && dec_val(ds@) <= u64::MAX),
        },
{
    if ds.len() == 0 {
        return None;
    }
    let mut i: usize = 0;
    while i < ds.len()
        invariant
            i <= ds.len(),
            forall|k: int| 0 <= k < i ==> is_digit(#[trigger] ds@[k]),
        decreases ds.len() - i,
    {
        let d = ds[i];
        if !(48 <= d && d <= 57) {
            return None;
        }
        i = i + 1;
    }
    let mut acc: u64 = 0;
    let mut j: usize = 0;
    while j < ds.len()
        invariant
            j <= ds.len(),
            all_digits(ds@),
            acc == dec_val(ds@.subrange(0, j as int)),
        decreases ds.len() - j,
    {
        let d = ds[j];
        proof {
            let pre = ds@.subrange(0, j as int);
            let cur = ds@.subrange(0, j + 1 as int);
            assert(cur.drop_last() =~= pre);
            assert(cur.last() == ds@[j as int]);
            assert(is_digit(ds@[j as int]));
        }
        let m = match acc.checked_mul(10) {
            Some(m) => m,
            None => {
                proof {
                    lemma_dec_val_prefix(ds@, j + 1);
                }
                return None;
            },
        };
        let next = match m.checked_add((d - 48) as u64) {
            Some(next) => next,
            None => {
                proof {
                    lemma_dec_val_prefix(ds@, j + 1);
                }
                return None;
            },
        };
        acc = next;
        j = j + 1;
    }
    proof {
        assert(ds@.subrange(0, ds@.len() as int) =~= ds@);
    }
    Some(acc)
}

/// Parses one request, already split into its argument byte strings,
/// against the clock reading `now_ms` (milliseconds since the epoch),
/// which anchors any `SET` deadline.
///
/// Returns exactly what the specification-level parser says for these
/// arguments: the command, or the error the request earns.
#[verifier::loop_isolation(false)]
pub fn parse_command(cmd_vec: Vec<Vec<u8>>, now_ms: u64) -> (r: Result<Command, ParseError>)
    requires
        cmd_vec@.len() >= 1,
    ensures
        r matches Ok(c) ==> spec_parse_command(bytes_view(cmd_vec@), now_ms) == Ok::<
            CommandV,
            ParseError,
        >(c@),
        r matches Err(e) ==> spec_parse_command(bytes_view(cmd_vec@), now_ms) == Err::<
            CommandV,
            ParseError,
        >(e),
{
    let ghost args = bytes_view(cmd_vec@);
    let up0 = to_upper(&cmd_vec[0]);
    proof {
        assert(args[0] == cmd_vec@[0]@);
    }
    let w = vec![80u8, 73u8, 78u8, 71u8];
    proof {
        assert(w@ =~= w_ping());
    }
    if eq_bytes(&up0, &w) {
        return Ok(Command::Ping);
    }
    let w = vec![69u8, 67u8, 72u8, 79u8];
    proof {
        assert(w@ =~= w_echo());
    }
    if eq_bytes(&up0, &w) {
        return Ok(Command::Echo(get_arg(&cmd_vec, 1)));
    }
    let w = vec![82u8, 69u8, 80u8, 76u8, 67u8, 79u8, 78u8, 70u8];
    proof {
        assert(w@ =~= w_replconf());
    }
    if eq_bytes(&up0, &w) {
        if cmd_vec.len() >= 2 {
            let up1 = to_upper(&cmd_vec[1]);
            proof {
                assert(args[1] == cmd_vec@[1]@);
            }
            let g = vec![71u8, 69u8, 84u8, 65u8, 67u8, 75u8];
            proof {
                assert(g@ =~= w_getack());
            }
            if eq_bytes(&up1, &g) {
                return Ok(Command::ReplConfAck);
            }
            return Ok(Command::ReplConf(clone_bytes(&cmd_vec[1])));
        }
        let empty: Vec<u8> = Vec::new();
        proof {
            assert(empty@ =~= Seq::<u8>::empty());
        }
        return Ok(Command::ReplConf(empty));
    }
    let w = vec![80u8, 83u8, 89u8, 78u8, 67u8];
    proof {
        assert(w@ =~= w_psync());
    }
    if eq_bytes(&up0, &w) {
        let mut rest: Vec<Vec<u8>> = Vec::new();
        let mut i: usize = 1;
        proof {
            assert(bytes_view(rest@) =~= args.subrange(1, 1));
        }
        while i < cmd_vec.len()
            invariant
                1 <= i <= cmd_vec.len(),
                bytes_view(rest@) =~= args.subrange(1, i as int),
            decreases cmd_vec.len() - i,
        {
            rest.push(clone_bytes(&cmd_vec[i]));
            proof {
                assert(bytes_view(rest@) =~= args.subrange(1, i + 1 as int));
            }
            i = i + 1;
        }
        proof {
            assert(args.subrange(1, args.len() as int) =~= args.drop_first());
        }
        return Ok(Command::Psync(rest));
    }
    let w = vec![71u8, 69u8, 84u8];
    proof {
        assert(w@ =~= w_get());
    }
    if eq_bytes(&up0, &w) {
        return Ok(Command::Get(get_arg(&cmd_vec, 1)));
    }
    let w = vec![83u8, 69u8, 84u8];
    proof {
        assert(w@ =~= w_set());
    }
    if eq_bytes(&up0, &w) {
        let key = get_arg(&cmd_vec, 1);
        let val = get_arg(&cmd_vec, 2);
        if cmd_vec.len() <= 3 {
            return Ok(Command::Put(key, val, None));
        }
        let up3 = to_upper(&cmd_vec[3]);
        proof {
            assert(args[3] == cmd_vec@[3]@);
        }
        let px = vec![80u8, 88u8];
        let ex = vec![69u8, 88u8];
        proof {
            assert(px@ =~= w_px());
            assert(ex@ =~= w_ex());
        }
        if !(eq_bytes(&up3, &px) || eq_bytes(&up3, &ex)) {
            return Err(ParseError::InvalidArgument);
        }
        if cmd_vec.len() <= 4 {
            return Err(ParseError::InvalidExpiryDuration);
        }
        proof {
            assert(args[4] == cmd_vec@[4]@);
        }
        let px_ms = match parse_u64(&cmd_vec[4]) {
            Some(n) => n,
            None => {
                return Err(ParseError::InvalidExpiryDuration);
            },
        };
        let deadline = match now_ms.checked_add(px_ms) {
            Some(d) => d,
            None => {
                return Err(ParseError::InvalidExpiryDuration);
            },
        };
        return Ok(Command::Put(key, val, Some(Expiry { px_ms, deadline_ms: deadline })));
    }
    let w = vec![67u8, 79u8, 78u8, 70u8, 73u8, 71u8];
    proof {
        assert(w@ =~= w_config());
    }
    if eq_bytes(&up0, &w) {
        if cmd_vec.len() < 2 {
            return Err(ParseError::InvalidCommand);
        }
        let up1 = to_upper(&cmd_vec[1]);
        proof {
            assert(args[1] == cmd_vec@[1]@);
        }
        let g = vec![71u8, 69u8, 84u8];
        proof {
            assert(g@ =~= w_get());
        }
        if eq_bytes(&up1, &g) {
            return Ok(Command::GetConfig(get_arg(&cmd_vec, 2)));
        }
        return Err(ParseError::OnlyConfigGet);
    }
    let w = vec![75u8, 69u8, 89u8, 83u8];
    proof {
        assert(w@ =~= w_keys());
    }
    if eq_bytes(&up0, &w) {
        if cmd_vec.len() >= 2 && cmd_vec[1].len() == 0 {
            proof {
                assert(args[1] == cmd_vec@[1]@);
            }
            let star = vec![42u8];
            proof {
                assert(star@ =~= seq![42u8]);
            }
            return Ok(Command::Keys(star));
        }
        proof {
            if args.len() >= 2 {
                assert(args[1] == cmd_vec@[1]@);
            }
        }
        return Ok(Command::Keys(get_arg(&cmd_vec, 1)));
    }
    let w = vec![73u8, 78u8, 70u8, 79u8];
    proof {
        assert(w@ =~= w_info());
    }
    if eq_bytes(&up0, &w) {
        return Ok(Command::Info(get_arg(&cmd_vec, 1)));
    }
    Err(ParseError::CommandNotSupported)
}

// ------------------------------------------------------------------
// The wire form of a command.
// ------------------------------------------------------------------

/// The argument byte strings a command puts back on the wire, for
/// re-emission to replicas and for the replication handshake. A `SET`
/// deadline rides as `px <millis>`, carrying the relative duration it
/// was parsed from.
pub open spec fn command_args(c: CommandV) -> Seq<Seq<u8>> {
    match c {
        CommandV::Ping => seq![w_ping()],
        CommandV::Echo(s) => seq![w_echo(), s],
        CommandV::ReplConf(a) => seq![w_replconf(), a],
        CommandV::ReplConfAck => seq![w_replconf(), w_getack()],
        CommandV::Psync(args) => seq![w_psync()] + args,
        CommandV::Get(k) => seq![w_get(), k],
        CommandV::Put(k, v, e) => match e {
            None => seq![w_set(), k, v],
            Some(x) => seq![w_set(), k, v, seq![112u8, 120u8], dec_rep(x.px_ms as nat)],
        },
        CommandV::GetConfig(k) => seq![w_config(), w_get(), k],
        CommandV::Keys(p) => seq![w_keys(), p],
        CommandV::Info(s) => if s.len() == 0 {
            seq![w_info()]
        } else {
            seq![w_info(), s]
        },
    }
}

impl Command {
    /// The RESP array this command travels as: what the primary fans
    /// out to its replicas, and what the replica-side handshake sends.
    #[verifier::loop_isolation(false)]
    pub fn encode(&self) -> (r: Vec<u8>)
        ensures
            r@ == encode_array(command_args(self@)),
    {
        let mut parts: Vec<Vec<u8>> = Vec::new();
        match self {
            Command::Ping => {
                parts.push(vec![80u8, 73u8, 78u8, 71u8]);
            },
            Command::Echo(s) => {
                parts.push(vec![69u8, 67u8, 72u8, 79u8]);
                parts.push(clone_bytes(s));
            },
            Command::ReplConf(a) => {
                parts.push(vec![82u8, 69u8, 80u8, 76u8, 67u8, 79u8, 78u8, 70u8]);
                parts.push(clone_bytes(a));
            },
            Command::ReplConfAck => {
                parts.push(vec![82u8, 69u8, 80u8, 76u8, 67u8, 79u8, 78u8, 70u8]);
                parts.push(vec![71u8, 69u8, 84u8, 65u8, 67u8, 75u8]);
            },
            Command::Psync(args) => {
                parts.push(vec![80u8, 83u8, 89u8, 78u8, 67u8]);
                let mut i: usize = 0;
                while i < args.len()
                    invariant
                        i <= args@.len(),
                        bytes_view(parts@) =~= seq![w_psync()] + bytes_view(args@).subrange(
                            0,
                            i as int,
                        ),
                    decreases args@.len() - i,
                {
                    let cb = clone_bytes(&args[i]);
                    let ghost old_parts = parts@;
                    parts.push(cb);
                    proof {
                        assert(parts@ == old_parts.push(cb));
                        assert(bytes_view(parts@).len() == old_parts.len() + 1);
                        assert forall|k: int| 0 <= k < bytes_view(parts@).len() implies bytes_view(
                            parts@,
                        )[k] == (seq![w_psync()] + bytes_view(args@).subrange(0, i + 1 as int))[k] by {
                            if k < old_parts.len() {
                                assert(parts@[k] == old_parts[k]);
                                assert(bytes_view(old_parts)[k] == old_parts[k]@);
                            } else {
                                assert(parts@[k] == cb);
                            }
                        }
                        assert(bytes_view(parts@) =~= seq![w_psync()] + bytes_view(
                            args@,
                        ).subrange(0, i + 1 as int));
                    }
                    i = i + 1;
                }
                proof {
                    assert(bytes_view(args@).subrange(0, args@.len() as int) =~= bytes_view(
                        args@,
                    ));
                }
            },
            Command::Get(k) => {
                parts.push(vec![71u8, 69u8, 84u8]);
                parts.push(clone_bytes(k));
            },
            Command::Put(k, v, e) => {
                parts.push(vec![83u8, 69u8, 84u8]);
                parts.push(clone_bytes(k));
                parts.push(clone_bytes(v));
                match e {
                    None => {},
                    Some(x) => {
                        parts.push(vec![112u8, 120u8]);
                        parts.push(u64_to_dec(x.px_ms));
                    },
                }
            },
            Command::GetConfig(k) => {
                parts.push(vec![67u8, 79u8, 78u8, 70u8, 73u8, 71u8]);
                parts.push(vec![71u8, 69u8, 84u8]);
                parts.push(clone_bytes(k));
            },
            Command::Keys(p) => {
                parts.push(vec![75u8, 69u8, 89u8, 83u8]);
                parts.push(clone_bytes(p));
            },
            Command::Info(s) => {
                parts.push(vec![73u8, 78u8, 70u8, 79u8]);
                if s.len() > 0 {
                    parts.push(clone_bytes(s));
                }
            },
        }
        proof {
            assert(bytes_view(parts@) =~= command_args(self@));
        }
        emit_array(&parts)
    }
}

// ------------------------------------------------------------------
// The command round trip.
// ------------------------------------------------------------------

/// The commands whose wire form parses back as the command itself:
/// payloads within the codec's size bound; a `REPLCONF` argument that
/// is not itself the acknowledgment word (that one travels as
/// `ReplConfAck`); a `KEYS` pattern that is not empty (that one parses
/// as `*`).
pub open spec fn command_wf(c: CommandV) -> bool {
    match c {
        CommandV::Ping => true,
        CommandV::Echo(s) => s.len() <= MAX_MESSAGE_SIZE,
        CommandV::ReplConf(a) => a.len() <= MAX_MESSAGE_SIZE && upper_seq(a) != w_getack(),
        CommandV::ReplConfAck => true,
        CommandV::Psync(args) => args.len() < MAX_MESSAGE_SIZE && forall|k: int|
            0 <= k < args.len() ==> #[trigger] args[k].len() <= MAX_MESSAGE_SIZE,
        CommandV::Get(k) => k.len() <= MAX_MESSAGE_SIZE,
        CommandV::Put(k, v, e) => k.len() <= MAX_MESSAGE_SIZE && v.len() <= MAX_MESSAGE_SIZE,
        CommandV::GetConfig(k) => k.len() <= MAX_MESSAGE_SIZE,
        CommandV::Keys(p) => 1 <= p.len() <= MAX_MESSAGE_SIZE,
        CommandV::Info(s) => s.len() <= MAX_MESSAGE_SIZE,
    }
}

/// `c` with any `SET` deadline re-anchored at the clock reading `now`.
pub open spec fn with_deadline(c: CommandV, now: u64) -> CommandV {
    match c {
        CommandV::Put(k, v, e) => match e {
            Some(x) => CommandV::Put(
                k,
                v,
                Some(Expiry { px_ms: x.px_ms, deadline_ms: (now + x.px_ms) as u64 }),
            ),
            None => c,
        },
        _ => c,
    }
}

proof fn lemma_upper_fixed(s: Seq<u8>)
    requires
        forall|k: int| 0 <= k < s.len() ==> !(97 <= #[trigger] s[k] <= 122),
    ensures
        upper_seq(s) =~= s,
{
}

/// Command round trip: parsing the argument strings a command emits
/// yields the command back, with any `SET` deadline re-anchored at the
/// parse-time clock.
pub proof fn lemma_command_round_trip(c: CommandV, now: u64)
    requires
        command_wf(c),
        c matches CommandV::Put(k, v, e) && e matches Some(x) ==> now + x.px_ms <= u64::MAX,
    ensures
        spec_parse_command(command_args(c), now) == Ok::<CommandV, ParseError>(
            with_deadline(c, now),
        ),
{
    let args = command_args(c);
    assert(w_echo() != w_ping()) by {
        assert(w_echo()[0] == 69 && w_ping()[0] == 80);
    }
    assert(w_keys() != w_ping()) by {
        assert(w_keys()[0] == 75 && w_ping()[0] == 80);
    }
    assert(w_keys() != w_echo()) by {
        assert(w_keys()[0] == 75 && w_echo()[0] == 69);
    }
    assert(w_info() != w_ping()) by {
        assert(w_info()[0] == 73 && w_ping()[0] == 80);
    }
    assert(w_info() != w_echo()) by {
        assert(w_info()[0] == 73 && w_echo()[0] == 69);
    }
    assert(w_info() != w_keys()) by {
        assert(w_info()[0] == 73 && w_keys()[0] == 75);
    }
    assert(w_set() != w_get()) by {
        assert(w_set()[0] == 83 && w_get()[0] == 71);
    }
    match c {
        CommandV::Ping => {
            lemma_upper_fixed(w_ping());
        },
        CommandV::Echo(s) => {
            lemma_upper_fixed(w_echo());
        },
        CommandV::ReplConf(a) => {
            lemma_upper_fixed(w_replconf());
            assert(args[1] == a);
        },
        CommandV::ReplConfAck => {
            lemma_upper_fixed(w_replconf());
            lemma_upper_fixed(w_getack());
        },
        CommandV::Psync(rest) => {
            lemma_upper_fixed(w_psync());
            assert(args.drop_first() =~= rest);
        },
        CommandV::Get(k) => {
            lemma_upper_fixed(w_get());
        },
        CommandV::Put(k, v, e) => {
            lemma_upper_fixed(w_set());
            match e {
                None => {
                    assert(args.len() == 3);
                },
                Some(x) => {
                    assert(upper_seq(args[3]) =~= w_px()) by {
                        assert(args[3] == seq![112u8, 120u8]);
                        assert(upper_seq(args[3]).len() == 2);
                        assert(upper_seq(args[3])[0] == upper(112));
                        assert(upper_seq(args[3])[1] == upper(120));
                    }
                    let ds = dec_rep(x.px_ms as nat);
                    assert(args[4] == ds);
                    lemma_dec_rep_digits(x.px_ms as nat);
                    lemma_dec_val_of_rep(x.px_ms as nat);
                    assert(ds.len() >= 1 && all_digits(ds) && dec_val(ds) <= u64::MAX);
                    assert(now + dec_val(ds) <= u64::MAX);
                },
            }
        },
        CommandV::GetConfig(k) => {
            lemma_upper_fixed(w_config());
            lemma_upper_fixed(w_get());
            assert(args[1] == w_get());
            assert(args.len() == 3);
        },
        CommandV::Keys(p) => {
            lemma_upper_fixed(w_keys());
            assert(args[1] == p);
            assert(p.len() != 0);
        },
        CommandV::Info(s) => {
            lemma_upper_fixed(w_info());
            if s.len() == 0 {
                assert(arg_or_empty(args, 1) =~= s);
            } else {
                assert(args[1] == s);
            }
        },
    }
}

/// Command wire round trip: the full path from a command through the
/// emitter, the codec and the parser. The bytes a command is written to
/// are read back as one array of its argument strings — whatever bytes
/// follow them in the buffer — and parsing those arguments yields the
/// command back.
pub proof fn lemma_command_wire_round_trip(c: CommandV, now: u64, tail: Seq<u8>)
    requires
        command_wf(c),
        c matches CommandV::Put(k, v, e) && e matches Some(x) ==> now + x.px_ms <= u64::MAX,
    ensures
        spec_decode_at(encode_array(command_args(c)) + tail, 0) == StepV::Frame(
            FrameV::Array(command_args(c)),
            encode_array(command_args(c)).len() as int,
        ),
        spec_parse_command(command_args(c), now) == Ok::<CommandV, ParseError>(
            with_deadline(c, now),
        ),
{
    let args = command_args(c);
    assert(frame_wf(FrameV::Array(args))) by {
        match c {
            CommandV::Put(k, v, e) => {
                if e is Some {
                    lemma_dec_rep_len_u64(e->0.px_ms as nat);
                    assert forall|j: int| 0 <= j < args.len() implies #[trigger] args[j].len()
                        <= MAX_MESSAGE_SIZE by {}
                } else {
                    assert forall|j: int| 0 <= j < args.len() implies #[trigger] args[j].len()
                        <= MAX_MESSAGE_SIZE by {}
                }
            },
            CommandV::Psync(rest) => {
                assert forall|j: int| 0 <= j < args.len() implies #[trigger] args[j].len()
                    <= MAX_MESSAGE_SIZE by {
                    if j >= 1 {
                        assert(args[j] == rest[j - 1]);
                    }
                }
            },
            _ => {
                assert forall|j: int| 0 <= j < args.len() implies #[trigger] args[j].len()
                    <= MAX_MESSAGE_SIZE by {}
            },
        }
    }
    lemma_decode_of_encode(FrameV::Array(args), tail);
    lemma_command_round_trip(c, now);
}

// ------------------------------------------------------------------
// The streaming buffer reader.
// ------------------------------------------------------------------

/// Reads every complete value out of `buf`, in order, and reports how
/// many bytes they covered; the caller keeps the residual tail and
/// retries once more bytes arrive. Any codec failure discards the lot.
///
/// Returns exactly what the specification-level stream reader says for
/// this buffer.
#[verifier::loop_isolation(false)]
pub fn process_buff(buf: &Vec<u8>) -> (r: Result<(Vec<Frame>, usize), ResponseErrors>)
    ensures
        r matches Ok(p) ==> spec_decode_stream(buf@, 0) == StreamV::Done(
            frames_view(p.0@),
            p.1 as int,
        ) && p.1 <= buf.len(),
        r matches Err(e) ==> spec_decode_stream(buf@, 0) == StreamV::Fail(e@),
{
    let mut frames: Vec<Frame> = Vec::new();
    let mut pos: usize = 0;
    proof {
        lemma_prepend_stream_empty(spec_decode_stream(buf@, 0));
        assert(frames_view(frames@) =~= Seq::<FrameV>::empty());
    }
    loop
        invariant
            pos <= buf.len(),
            spec_decode_stream(buf@, 0) == prepend_stream(
                frames_view(frames@),
                spec_decode_stream(buf@, pos as int),
            ),
        decreases buf.len() - pos,
    {
        match decode_frame(buf, pos) {
            DecodeStep::More => {
                proof {
                    assert(spec_decode_stream(buf@, pos as int) == StreamV::Done(
                        Seq::<FrameV>::empty(),
                        pos as int,
                    ));
                    assert(frames_view(frames@) + Seq::<FrameV>::empty() =~= frames_view(
                        frames@,
                    ));
                }
                return Ok((frames, pos));
            },
            DecodeStep::Fail(e) => {
                return Err(e);
            },
            DecodeStep::Complete(f, j) => {
                proof {
                    lemma_prepend_stream_push(
                        frames_view(frames@),
                        f@,
                        spec_decode_stream(buf@, j as int),
                    );
                    assert(spec_decode_stream(buf@, pos as int) == prepend_stream(
                        seq![f@],
                        spec_decode_stream(buf@, j as int),
                    ));
                }
                let ghost old_frames = frames@;
                frames.push(f);
                proof {
                    assert(frames_view(frames@) =~= frames_view(old_frames).push(f@));
                }
                pos = j;
            },
        }
    }
}

} // verus!
