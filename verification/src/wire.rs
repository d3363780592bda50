//! The wire format, as mathematics.
//!
//! A frame is a total length followed by its arguments; an argument is its
//! length followed by its bytes. Every length is an unsigned 64-bit integer
//! in little-endian order, and the total length counts, for each argument,
//! its eight length bytes and its payload.

use vstd::bytes::*;
use vstd::prelude::*;

verus! {

/// Largest total length, and largest argument length, that a reader accepts.
pub const MAX_LEN: u64 = 0x10000;

/// Bytes that `args` take on the wire after the total-length field.
pub open spec fn args_size(args: Seq<Seq<u8>>) -> nat
    decreases args.len(),
{
    if args.len() == 0 {
        0
    } else {
        8 + args[0].len() + args_size(args.drop_first())
    }
}

/// One argument on the wire: its length, then its bytes.
pub open spec fn encode_arg(arg: Seq<u8>) -> Seq<u8> {
    spec_u64_to_le_bytes(arg.len() as u64) + arg
}

/// The arguments on the wire, one after the other.
pub open spec fn encode_args(args: Seq<Seq<u8>>) -> Seq<u8>
    decreases args.len(),
{
    if args.len() == 0 {
        Seq::empty()
    } else {
        encode_arg(args[0]) + encode_args(args.drop_first())
    }
}

/// A whole frame on the wire: the total length, then the arguments.
pub open spec fn encode_frame(args: Seq<Seq<u8>>) -> Seq<u8> {
    spec_u64_to_le_bytes(args_size(args) as u64) + encode_args(args)
}

/// What reading one frame from the front of a byte stream gives: the
/// arguments, or `None` where the read fails, and the number of bytes that
/// the read takes from the stream either way.
pub struct Parsed {
    pub words: Option<Seq<Seq<u8>>>,
    pub used: nat,
}

/// A failed read that took `used` bytes.
pub open spec fn failed(used: nat) -> Parsed {
    Parsed { words: None, used }
}

/// The value of the length field at the front of `bytes`.
pub open spec fn length_field(bytes: Seq<u8>) -> int
    recommends
        bytes.len() >= 8,
{
    spec_u64_from_le_bytes(bytes.subrange(0, 8)) as int
}

/// Reading arguments from the front of `bytes` until exactly `left` bytes
/// have been accounted for.
///
/// Each argument is read whole, length then payload, before it is charged
/// against `left`. The read fails where the stream ends early (taking all of
/// `bytes`), where a length field exceeds `MAX_LEN` (taking that field and no
/// more), and where an argument is larger than what is left of the total
/// (taking that argument).
pub open spec fn parse_args(bytes: Seq<u8>, left: nat) -> Parsed
    decreases left,
{
    if left == 0 {
        Parsed { words: Some(Seq::empty()), used: 0 }
    } else if bytes.len() < 8 {
        failed(bytes.len())
    } else {
        let n = length_field(bytes);
        if n > MAX_LEN {
            failed(8)
        } else if bytes.len() < 8 + n {
            failed(bytes.len())
        } else if left < 8 + n {
            failed((8 + n) as nat)
        } else {
            let rest = parse_args(bytes.skip(8 + n), (left - 8 - n) as nat);
            Parsed {
                words: match rest.words {
                    Some(w) => Some(seq![bytes.subrange(8, 8 + n)] + w),
                    None => None,
                },
                used: (8 + n + rest.used) as nat,
            }
        }
    }
}

/// Reading one frame from the front of `bytes`: the total length, which must
/// not exceed `MAX_LEN`, then arguments until the total is used up.
pub open spec fn parse_frame(bytes: Seq<u8>) -> Parsed {
    if bytes.len() < 8 {
        failed(bytes.len())
    } else if length_field(bytes) > MAX_LEN {
        failed(8)
    } else {
        let body = parse_args(bytes.skip(8), length_field(bytes) as nat);
        Parsed { words: body.words, used: 8 + body.used }
    }
}

/// True when a reader accepts a frame of these arguments: their size on the
/// wire is within `MAX_LEN`, and so, with it, is the length of each.
pub open spec fn fits(args: Seq<Seq<u8>>) -> bool {
    args_size(args) <= MAX_LEN
}

/// Appending an argument adds its length field and its payload to the size.
pub proof fn lemma_args_size_push(args: Seq<Seq<u8>>, arg: Seq<u8>)
    ensures
        args_size(args.push(arg)) == args_size(args) + 8 + arg.len(),
    decreases args.len(),
{
    if args.len() == 0 {
        assert(args.push(arg).drop_first() =~= args);
    } else {
        assert(args.push(arg).drop_first() =~= args.drop_first().push(arg));
        lemma_args_size_push(args.drop_first(), arg);
    }
}

/// Appending an argument appends its encoding.
pub proof fn lemma_encode_args_push(args: Seq<Seq<u8>>, arg: Seq<u8>)
    ensures
        encode_args(args.push(arg)) == encode_args(args) + encode_arg(arg),
    decreases args.len(),
{
    if args.len() == 0 {
        assert(args.push(arg).drop_first() =~= args);
        assert(encode_args(args.push(arg)) =~= encode_args(args) + encode_arg(arg));
    } else {
        assert(args.push(arg).drop_first() =~= args.drop_first().push(arg));
        lemma_encode_args_push(args.drop_first(), arg);
        assert(encode_args(args.push(arg)) =~= encode_args(args) + encode_arg(arg));
    }
}

/// The encoded arguments take exactly `args_size` bytes.
pub proof fn lemma_encode_args_len(args: Seq<Seq<u8>>)
    ensures
        encode_args(args).len() == args_size(args),
    decreases args.len(),
{
    lemma_auto_spec_u64_to_from_le_bytes();
    if args.len() > 0 {
        lemma_encode_args_len(args.drop_first());
    }
}

/// The size of the arguments is that of the first `i` and that of the rest.
pub proof fn lemma_args_size_split(args: Seq<Seq<u8>>, i: int)
    requires
        0 <= i <= args.len(),
    ensures
        args_size(args) == args_size(args.take(i)) + args_size(args.skip(i)),
    decreases i,
{
    if i == 0 {
        assert(args.skip(0) =~= args);
    } else {
        lemma_args_size_split(args.drop_first(), i - 1);
        assert(args.take(i).drop_first() =~= args.drop_first().take(i - 1));
        assert(args.skip(i) =~= args.drop_first().skip(i - 1));
    }
}

/// No argument is longer than the arguments together.
pub proof fn lemma_arg_within_size(args: Seq<Seq<u8>>, i: int)
    requires
        0 <= i < args.len(),
    ensures
        8 + args[i].len() <= args_size(args),
    decreases args.len(),
{
    if i > 0 {
        lemma_arg_within_size(args.drop_first(), i - 1);
    }
}

/// Reading back encoded arguments, with their size as the total, gives the
/// arguments and takes exactly their encoding from the stream.
pub proof fn lemma_parse_encoded_args(args: Seq<Seq<u8>>, tail: Seq<u8>)
    requires
        fits(args),
    ensures
        parse_args(encode_args(args) + tail, args_size(args)) == (Parsed {
            words: Some(args),
            used: args_size(args),
        }),
    decreases args.len(),
{
    lemma_auto_spec_u64_to_from_le_bytes();
    if args.len() > 0 {
        let first = args[0];
        let others = args.drop_first();
        let bytes = encode_args(args) + tail;
        let n = first.len() as int;
        assert(bytes.subrange(0, 8) =~= spec_u64_to_le_bytes(first.len() as u64));
        assert(length_field(bytes) == n);
        assert(bytes.skip(8 + n) =~= encode_args(others) + tail);
        assert(bytes.subrange(8, 8 + n) =~= first);
        lemma_parse_encoded_args(others, tail);
        assert(seq![first] + others =~= args);
    } else {
        assert(args =~= Seq::empty());
    }
}

/// Decoding undoes encoding: for every sequence of arguments that fits,
/// reading a frame from its encoding, whatever follows it in the stream,
/// gives back the arguments and takes exactly the encoding.
pub proof fn law_decode_inverts_encode(args: Seq<Seq<u8>>, tail: Seq<u8>)
    requires
        forall|i: int| 0 <= i < args.len() ==> args[i].len() <= MAX_LEN,
        args_size(args) <= MAX_LEN,
    ensures
        parse_frame(encode_frame(args) + tail) == (Parsed {
            words: Some(args),
            used: encode_frame(args).len(),
        }),
{
    lemma_auto_spec_u64_to_from_le_bytes();
    lemma_encode_args_len(args);
    let bytes = encode_frame(args) + tail;
    assert(bytes.subrange(0, 8) =~= spec_u64_to_le_bytes(args_size(args) as u64));
    assert(bytes.skip(8) =~= encode_args(args) + tail);
    lemma_parse_encoded_args(args, tail);
}

/// Arguments that were read are what the stream held: they account for
/// exactly `left` bytes, and those bytes are their encoding.
pub proof fn lemma_parsed_args_are_encoded(bytes: Seq<u8>, left: nat)
    requires
        parse_args(bytes, left).words is Some,
    ensures
        ({
            let args = parse_args(bytes, left).words->0;
            &&& args_size(args) == left
            &&& parse_args(bytes, left).used == left
            &&& left <= bytes.len()
            &&& bytes.take(left as int) == encode_args(args)
        }),
    decreases left,
{
    lemma_auto_spec_u64_to_from_le_bytes();
    let args = parse_args(bytes, left).words->0;
    if left == 0 {
        assert(bytes.take(0) =~= encode_args(args));
    } else {
        let n = length_field(bytes);
        let rest = bytes.skip(8 + n);
        let rest_left = (left - 8 - n) as nat;
        lemma_parsed_args_are_encoded(rest, rest_left);
        let others = parse_args(rest, rest_left).words->0;
        let first = bytes.subrange(8, 8 + n);
        assert(args == seq![first] + others);
        assert(args.drop_first() =~= others);
        assert(spec_u64_to_le_bytes(first.len() as u64) == bytes.subrange(0, 8));
        assert(bytes.take(left as int) =~= bytes.subrange(0, 8) + first + rest.take(
            rest_left as int,
        ));
        assert(bytes.take(left as int) =~= encode_args(args));
    }
}

/// Encoding undoes decoding: a frame that is read from a stream fits, and
/// the bytes that the read took are the encoding of its arguments.
pub proof fn law_encode_inverts_decode(bytes: Seq<u8>)
    requires
        parse_frame(bytes).words is Some,
    ensures
        ({
            let parsed = parse_frame(bytes);
            &&& fits(parsed.words->0)
            &&& parsed.used <= bytes.len()
            &&& bytes.take(parsed.used as int) == encode_frame(parsed.words->0)
        }),
{
    lemma_auto_spec_u64_to_from_le_bytes();
    let total = length_field(bytes) as nat;
    lemma_parsed_args_are_encoded(bytes.skip(8), total);
    let args = parse_frame(bytes).words->0;
    assert(spec_u64_to_le_bytes(total as u64) == bytes.subrange(0, 8));
    assert(bytes.take(8 + total as int) =~= bytes.subrange(0, 8) + bytes.skip(8).take(
        total as int,
    ));
}

/// A total length above `MAX_LEN` fails the read, which takes the length
/// field and nothing after it.
pub proof fn law_oversized_total_rejected(bytes: Seq<u8>)
    requires
        bytes.len() >= 8,
        length_field(bytes) > MAX_LEN,
    ensures
        parse_frame(bytes) == failed(8),
{
}

/// The encoding of arguments that do not fit is rejected at its total
/// length, whatever the arguments are.
pub proof fn law_oversized_frame_rejected(args: Seq<Seq<u8>>, tail: Seq<u8>)
    requires
        MAX_LEN < args_size(args) <= u64::MAX,
    ensures
        parse_frame(encode_frame(args) + tail) == failed(8),
{
    lemma_auto_spec_u64_to_from_le_bytes();
    let bytes = encode_frame(args) + tail;
    assert(bytes.subrange(0, 8) =~= spec_u64_to_le_bytes(args_size(args) as u64));
}

/// An argument length above `MAX_LEN` fails the read, which takes the
/// arguments before it and its length field, and nothing after that.
pub proof fn law_oversized_argument_rejected(
    total: u64,
    before: Seq<Seq<u8>>,
    len: u64,
    tail: Seq<u8>,
)
    requires
        total <= MAX_LEN,
        args_size(before) < total,
        len > MAX_LEN,
    ensures
        parse_frame(
            spec_u64_to_le_bytes(total) + encode_args(before) + spec_u64_to_le_bytes(len) + tail,
        ) == failed(8 + args_size(before) + 8),
{
    lemma_auto_spec_u64_to_from_le_bytes();
    let body = encode_args(before) + spec_u64_to_le_bytes(len) + tail;
    let bytes = spec_u64_to_le_bytes(total) + encode_args(before) + spec_u64_to_le_bytes(len)
        + tail;
    assert(bytes.subrange(0, 8) =~= spec_u64_to_le_bytes(total));
    assert(bytes.skip(8) =~= body);
    lemma_oversized_argument(before, len, tail, total as nat);
}

/// The same, for the arguments after the total length.
proof fn lemma_oversized_argument(before: Seq<Seq<u8>>, len: u64, tail: Seq<u8>, left: nat)
    requires
        left <= MAX_LEN,
        args_size(before) < left,
        len > MAX_LEN,
    ensures
        parse_args(encode_args(before) + spec_u64_to_le_bytes(len) + tail, left) == failed(
            args_size(before) + 8,
        ),
    decreases before.len(),
{
    lemma_auto_spec_u64_to_from_le_bytes();
    let bytes = encode_args(before) + spec_u64_to_le_bytes(len) + tail;
    if before.len() == 0 {
        assert(bytes.subrange(0, 8) =~= spec_u64_to_le_bytes(len));
    } else {
        let first = before[0];
        let others = before.drop_first();
        let n = first.len() as int;
        assert(bytes.subrange(0, 8) =~= spec_u64_to_le_bytes(first.len() as u64));
        assert(bytes.skip(8 + n) =~= encode_args(others) + spec_u64_to_le_bytes(len) + tail);
        lemma_oversized_argument(others, len, tail, (left - 8 - n) as nat);
    }
}

} // verus!
