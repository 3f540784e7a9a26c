//! The yabai client: the data model of a space, and the wire protocol spoken over
//! yabai's Unix socket.
//!
//! A request is `[4-byte little-endian length][arg1 NUL][arg2 NUL]...[extra NUL]`,
//! where the length counts the bytes after it. A response whose first byte is
//! `0x07` reports a failure; any other response is the reply's text.

use vstd::prelude::*;
use vstd::utf8::*;
use vstd::arithmetic::div_mod::{lemma_div_denominator, lemma_fundamental_div_mod, lemma_multiply_divide_lt, lemma_small_mod};
use crate::text::{decimal_spec, i64_to_string, string_from_utf8_lossy, trim, trim_spec, utf8_lossy};

verus! {

/// The first byte of a response that reports a failure.
pub const FAILURE_BYTE: u8 = 0x07;

/// The layout of a space, as yabai names it.
#[derive(Clone, Copy, Debug, PartialEq, Eq, Structural)]
pub enum SpaceKind {
    Bsp,
    Float,
    Stack,
}

impl Default for SpaceKind {
    fn default() -> (r: SpaceKind)
        ensures
            r == SpaceKind::Bsp,
    {
        SpaceKind::Bsp
    }
}

/// A space as yabai reports it.
#[derive(Clone, Debug)]
pub struct Space {
    pub index: i64,
    pub display: i64,
    pub label: String,
    pub has_focus: bool,
    pub is_visible: bool,
    pub windows: Vec<u64>,
    pub kind: SpaceKind,
}

impl Space {
    /// What the label of a space reads: its own label where it has one, else its index.
    pub open spec fn display_label_spec(&self) -> Seq<char> {
        if self.label@.len() > 0 {
            self.label@
        } else {
            decimal_spec(self.index as int)
        }
    }

    /// The space's label, or its index in decimal when the label is empty.
    pub fn display_label(&self) -> (r: String)
        ensures
            r@ == self.display_label_spec(),
    {
        if !self.label.as_str().is_empty() {
            self.label.clone()
        } else {
            i64_to_string(self.index)
        }
    }
}

/// The NUL-terminated UTF-8 encodings of `args`, one after the other.
pub open spec fn args_bytes(args: Seq<Seq<char>>) -> Seq<u8>
    decreases args.len(),
{
    if args.len() == 0 {
        Seq::empty()
    } else {
        args_bytes(args.drop_last()) + encode_utf8(args.last()) + seq![0u8]
    }
}

/// The payload of a request: each argument NUL-terminated, then one more NUL.
pub open spec fn payload_spec(args: Seq<Seq<char>>) -> Seq<u8> {
    args_bytes(args) + seq![0u8]
}

/// The four little-endian bytes of `n`, for `0 <= n < 2^32`.
pub open spec fn le_u32_bytes(n: nat) -> Seq<u8> {
    seq![
        (n % 256) as u8,
        ((n / 256) % 256) as u8,
        ((n / 65536) % 256) as u8,
        ((n / 16777216) % 256) as u8,
    ]
}

/// The number that four little-endian bytes stand for.
pub open spec fn le_u32_value(b: Seq<u8>) -> nat {
    (b[0] + 256 * b[1] + 65536 * b[2] + 16777216 * b[3]) as nat
}

/// A whole request: the payload's length, then the payload.
pub open spec fn message_spec(args: Seq<Seq<char>>) -> Seq<u8> {
    le_u32_bytes(payload_spec(args).len()) + payload_spec(args)
}

/// The largest payload that the length field holds (it is a signed 32-bit number).
pub open spec fn max_payload_len() -> nat {
    0x7fff_ffff
}

/// The outcome of encoding `args`: the request, or the reason it is refused.
pub open spec fn request_spec(args: Seq<Seq<char>>) -> Result<Seq<u8>, Seq<char>> {
    if args.len() == 0 {
        Err("no yabai arguments provided"@)
    } else if payload_spec(args).len() > max_payload_len() {
        Err("yabai message payload too large"@)
    } else {
        Ok(message_spec(args))
    }
}

/// An outcome of bytes or an error text, taken by their views.
pub open spec fn bytes_result_view(r: Result<Vec<u8>, String>) -> Result<Seq<u8>, Seq<char>> {
    match r {
        Ok(m) => Ok(m@),
        Err(e) => Err(e@),
    }
}

/// The arguments of a request, each as its characters.
pub open spec fn args_view(args: Seq<&str>) -> Seq<Seq<char>> {
    args.map_values(|a: &str| a@)
}

proof fn lemma_args_view_take(args: Seq<&str>, i: int)
    requires
        0 <= i < args.len(),
    ensures
        args_view(args.take(i + 1)).drop_last() == args_view(args.take(i)),
        args_view(args.take(i + 1)).last() == args[i]@,
{
    assert(args_view(args.take(i + 1)).drop_last() =~= args_view(args.take(i)));
}

/// Builds the request that carries `args` to yabai.
///
/// Fails, as yabai's own client does, on an empty argument list and on a payload
/// that the length field cannot hold.
pub fn encode_request(args: &[&str]) -> (r: Result<Vec<u8>, String>)
    ensures
        bytes_result_view(r) == request_spec(args_view(args@)),
{
    if args.len() == 0 {
        return Err(String::from_str("no yabai arguments provided"));
    }
    let mut payload: Vec<u8> = Vec::new();
    let mut i: usize = 0;
    while i < args.len()
        invariant
            i <= args@.len(),
            payload@ == args_bytes(args_view(args@.take(i as int))),
        decreases args@.len() - i,
    {
        let bytes = args[i].as_bytes();
        let ghost before = payload@;
        let mut j: usize = 0;
        while j < bytes.len()
            invariant
                j <= bytes@.len(),
                bytes@ == encode_utf8(args@[i as int]@),
                payload@ == before + bytes@.take(j as int),
            decreases bytes@.len() - j,
        {
            payload.push(bytes[j]);
            j = j + 1;
            assert(payload@ =~= before + bytes@.take(j as int));
        }
        payload.push(0u8);
        proof {
            lemma_args_view_take(args@, i as int);
            assert(bytes@.take(j as int) =~= bytes@);
        }
        i = i + 1;
    }
    payload.push(0u8);
    proof {
        assert(args@.take(args@.len() as int) =~= args@);
        assert(payload@ == payload_spec(args_view(args@)));
        assert(args_view(args@).len() == args@.len());
    }
    if payload.len() > 0x7fff_ffff {
        return Err(String::from_str("yabai message payload too large"));
    }
    let n: usize = payload.len();
    let mut message: Vec<u8> = vec![
        (n % 256) as u8,
        ((n / 256) % 256) as u8,
        ((n / 65536) % 256) as u8,
        ((n / 16777216) % 256) as u8,
    ];
    let ghost header = message@;
    let mut k: usize = 0;
    while k < payload.len()
        invariant
            k <= payload@.len(),
            message@ == header + payload@.take(k as int),
        decreases payload@.len() - k,
    {
        message.push(payload[k]);
        k = k + 1;
        assert(message@ =~= header + payload@.take(k as int));
    }
    proof {
        assert(payload@.take(k as int) =~= payload@);
        assert(header =~= le_u32_bytes(n as nat));
        assert(message@ == message_spec(args_view(args@)));
    }
    Ok(message)
}


/// The text of a failure report: the bytes after the failure byte, decoded and
/// trimmed, or a fixed message when nothing is left.
pub open spec fn failure_text_spec(rest: Seq<u8>) -> Seq<char> {
    failure_message(utf8_lossy(rest))
}

/// The message of a failure whose text decodes to `text`: the text trimmed, or a
/// fixed message when nothing is left.
pub open spec fn failure_message(text: Seq<char>) -> Seq<char> {
    if trim_spec(text).len() == 0 {
        "yabai returned an error"@
    } else {
        trim_spec(text)
    }
}

/// What a response means: a failure when it starts with the failure byte, else
/// the reply's text.
pub open spec fn response_spec(response: Seq<u8>) -> Result<Seq<char>, Seq<char>> {
    if response.len() > 0 && response[0] == FAILURE_BYTE {
        Err(failure_text_spec(response.drop_first()))
    } else {
        Ok(utf8_lossy(response))
    }
}

/// A failure that yabai reports always comes with a message.
pub proof fn lemma_failure_text_nonempty(rest: Seq<u8>)
    ensures
        failure_text_spec(rest).len() > 0,
{
    reveal_strlit("yabai returned an error");
}

/// An outcome of two texts, taken by their views.
pub open spec fn text_result_view(r: Result<String, String>) -> Result<Seq<char>, Seq<char>> {
    match r {
        Ok(t) => Ok(t@),
        Err(e) => Err(e@),
    }
}

/// Reads yabai's response: `Err` with the reported message when the first byte is
/// the failure byte, else `Ok` with the reply decoded as UTF-8.
pub fn decode_response(response: &[u8]) -> (r: Result<String, String>)
    ensures
        text_result_view(r) == response_spec(response@),
        !(response@.len() > 0 && response@[0] == FAILURE_BYTE) && valid_utf8(response@)
            ==> text_result_view(r) == Ok::<Seq<char>, Seq<char>>(decode_utf8(response@)),
        response@.len() > 0 && response@[0] == FAILURE_BYTE && valid_utf8(response@.drop_first())
            ==> text_result_view(r) == Err::<Seq<char>, Seq<char>>(
            failure_message(decode_utf8(response@.drop_first())),
        ),
{
    if response.len() > 0 && response[0] == FAILURE_BYTE {
        let rest = &response[1..response.len()];
        assert(rest@ =~= response@.drop_first());
        let decoded = string_from_utf8_lossy(rest);
        let msg = trim(decoded.as_str());
        if msg.as_str().is_empty() {
            Err(String::from_str("yabai returned an error"))
        } else {
            Err(msg)
        }
    } else {
        Ok(string_from_utf8_lossy(response))
    }
}

/// The path of yabai's socket for the user named `user`.
pub open spec fn socket_path_spec(user: Seq<char>) -> Seq<char> {
    "/tmp/yabai_"@ + user + ".socket"@
}

/// The path of yabai's socket for the user named `user`: `/tmp/yabai_<user>.socket`.
pub fn socket_path(user: &str) -> (r: String)
    ensures
        r@ == socket_path_spec(user@),
{
    let mut path = String::from_str("/tmp/yabai_");
    path.append(user);
    path.append(".socket");
    path
}

/// The socket path holds the whole user name between `/tmp/yabai_` and
/// `.socket`.
pub proof fn lemma_socket_path_holds_user(user: Seq<char>)
    ensures
        socket_path_spec(user).len() == user.len() + 18,
        socket_path_spec(user).subrange(0, 11) == "/tmp/yabai_"@,
        socket_path_spec(user).subrange(11, 11 + user.len() as int) == user,
        socket_path_spec(user).subrange(11 + user.len() as int, user.len() as int + 18) == ".socket"@,
{
    reveal_strlit("/tmp/yabai_");
    reveal_strlit(".socket");
    let p = socket_path_spec(user);
    assert(p.subrange(0, 11) =~= "/tmp/yabai_"@);
    assert(p.subrange(11, 11 + user.len() as int) =~= user);
    assert(p.subrange(11 + user.len() as int, user.len() as int + 18) =~= ".socket"@);
}

/// The request that asks yabai for all spaces: `query --spaces`.
pub fn query_spaces_request() -> (r: Result<Vec<u8>, String>)
    ensures
        bytes_result_view(r) == request_spec(seq!["query"@, "--spaces"@]),
{
    let args: [&str; 2] = ["query", "--spaces"];
    let r = encode_request(&args);
    assert(args_view(args@) =~= seq!["query"@, "--spaces"@]);
    r
}

/// The request that tells yabai to focus the space at `index`:
/// `space --focus <index>`.
pub fn focus_space_request(index: i64) -> (r: Result<Vec<u8>, String>)
    ensures
        bytes_result_view(r) == request_spec(seq!["space"@, "--focus"@, decimal_spec(index as int)]),
{
    let index_text = i64_to_string(index);
    let args: [&str; 3] = ["space", "--focus", index_text.as_str()];
    let r = encode_request(&args);
    assert(args_view(args@) =~= seq!["space"@, "--focus"@, decimal_spec(index as int)]);
    r
}

/// The last NUL of `b`, when there is one, is within `b`.
pub proof fn lemma_last_nul_bounds(b: Seq<u8>)
    ensures
        -1 <= last_nul(b) < b.len(),
    decreases b.len(),
{
    if b.len() > 0 && b.last() != 0 {
        lemma_last_nul_bounds(b.drop_last());
    }
}

/// The position of the last NUL in `b`, or -1 when it holds none.
pub open spec fn last_nul(b: Seq<u8>) -> int
    decreases b.len(),
{
    if b.len() == 0 {
        -1
    } else if b.last() == 0 {
        b.len() - 1
    } else {
        last_nul(b.drop_last())
    }
}

/// The NUL-terminated fields that `b` is made of, each without its NUL, as a
/// reader splits them.
pub open spec fn nul_fields(b: Seq<u8>) -> Seq<Seq<u8>>
    decreases b.len(),
{
    if b.len() == 0 {
        Seq::empty()
    } else {
        let j = last_nul(b.drop_last());
        proof {
            lemma_last_nul_bounds(b.drop_last());
        }
        nul_fields(b.take(j + 1)).push(b.subrange(j + 1, b.len() - 1))
    }
}

proof fn lemma_last_nul_after_field(p: Seq<u8>, q: Seq<u8>)
    requires
        p.len() == 0 || p.last() == 0,
        !q.contains(0u8),
    ensures
        last_nul(p + q) == p.len() - 1,
    decreases q.len(),
{
    if q.len() == 0 {
        assert(p + q =~= p);
    } else {
        assert((p + q).last() == q.last());
        assert(q.last() != 0) by {
            assert(q[q.len() - 1] == q.last());
        }
        assert((p + q).drop_last() =~= p + q.drop_last());
        assert(!q.drop_last().contains(0u8)) by {
            if q.drop_last().contains(0u8) {
                let i = choose|i: int| 0 <= i < q.drop_last().len() && q.drop_last()[i] == 0u8;
                assert(q[i] == 0u8);
            }
        }
        lemma_last_nul_after_field(p, q.drop_last());
    }
}

proof fn lemma_args_bytes_fields(args: Seq<Seq<char>>)
    requires
        forall|i: int| 0 <= i < args.len() ==> !(#[trigger] encode_utf8(args[i])).contains(0u8),
    ensures
        nul_fields(args_bytes(args)) == args.map_values(|a: Seq<char>| encode_utf8(a)),
        args.len() > 0 ==> args_bytes(args).last() == 0,
    decreases args.len(),
{
    if args.len() == 0 {
        assert(args.map_values(|a: Seq<char>| encode_utf8(a)) =~= Seq::<Seq<u8>>::empty());
    } else {
        let rest = args.drop_last();
        let a = args_bytes(rest);
        let e = encode_utf8(args.last());
        let b = args_bytes(args);
        assert forall|i: int| 0 <= i < rest.len() implies !(#[trigger] encode_utf8(
            rest[i],
        )).contains(0u8) by {
            assert(rest[i] == args[i]);
        }
        lemma_args_bytes_fields(rest);
        assert(!e.contains(0u8)) by {
            assert(args.last() == args[args.len() - 1]);
        }
        assert(b == a + e + seq![0u8]);
        assert(b.drop_last() =~= a + e);
        lemma_last_nul_after_field(a, e);
        assert(b.take(a.len() as int) =~= a);
        assert(b.subrange(a.len() as int, b.len() - 1) =~= e);
        assert(args.map_values(|a: Seq<char>| encode_utf8(a)) =~= rest.map_values(
            |a: Seq<char>| encode_utf8(a),
        ).push(e));
    }
}

proof fn lemma_le_u32_round_trip(n: nat)
    requires
        n < 0x1_0000_0000,
    ensures
        le_u32_value(le_u32_bytes(n)) == n,
{
    let n1 = n / 256;
    let n2 = n / 65536;
    let n3 = n / 16777216;
    lemma_fundamental_div_mod(n as int, 256);
    lemma_div_denominator(n as int, 256, 256);
    lemma_fundamental_div_mod(n1 as int, 256);
    lemma_div_denominator(n as int, 65536, 256);
    lemma_fundamental_div_mod(n2 as int, 256);
    lemma_multiply_divide_lt(n as int, 16777216, 256);
    lemma_small_mod(n3, 256);
    let b = le_u32_bytes(n);
    assert(b[0] == n % 256);
    assert(b[1] == n1 % 256);
    assert(b[2] == n2 % 256);
    assert(b[3] == n3);
}

/// What yabai reads back from a request whose arguments hold no NUL: the length
/// field gives the number of bytes after it, the payload ends with the extra NUL,
/// and splitting the rest at its NULs gives each argument's UTF-8 bytes, which
/// decode to the argument again.
pub proof fn lemma_request_round_trip(args: Seq<Seq<char>>)
    requires
        args.len() > 0,
        payload_spec(args).len() <= max_payload_len(),
        forall|i: int| 0 <= i < args.len() ==> !(#[trigger] encode_utf8(args[i])).contains(0u8),
    ensures
        ({
            let m = message_spec(args);
            let payload = m.skip(4);
            &&& le_u32_value(m.take(4)) == m.len() - 4
            &&& payload.last() == 0
            &&& nul_fields(payload.drop_last()) == args.map_values(|a: Seq<char>| encode_utf8(a))
            &&& forall|i: int|
                0 <= i < args.len() ==> decode_utf8(
                    #[trigger] nul_fields(payload.drop_last())[i],
                ) == args[i]
        }),
{
    let m = message_spec(args);
    let p = payload_spec(args);
    lemma_le_u32_round_trip(p.len());
    assert(m.take(4) =~= le_u32_bytes(p.len()));
    assert(m.skip(4) =~= p);
    assert(p.drop_last() =~= args_bytes(args));
    lemma_args_bytes_fields(args);
    assert forall|i: int| 0 <= i < args.len() implies decode_utf8(
        #[trigger] nul_fields(m.skip(4).drop_last())[i],
    ) == args[i] by {
        encode_utf8_decode_utf8(args[i]);
    }
}

} // verus!
