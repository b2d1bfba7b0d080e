//! The cache snapshot format: a self-delimiting binary encoding of
//! domain entities.  Cache entries hold serialized snapshots of domain
//! entities; the engine writes them with the encoders and reads them
//! back with the decoders, whose contracts state that every encoding
//! decodes to the value it came from.

use vstd::prelude::*;
use vstd::bytes::{lemma_auto_spec_u128_to_from_le_bytes, lemma_auto_spec_u64_to_from_le_bytes,
    spec_u128_to_le_bytes, spec_u64_to_le_bytes, u128_from_le_bytes, u64_from_le_bytes,
    u128_to_le_bytes, u64_to_le_bytes};
use vstd::utf8::{encode_utf8, encode_utf8_decode_utf8, encode_utf8_valid_utf8, valid_utf8};

use crate::strutil::string_from_utf8;
use crate::{view_opt_string, User, UserType, UserV};

verus! {

/// `2^64`.
pub open spec fn two_64() -> int {
    0x1_0000_0000_0000_0000
}

/// The unsigned 64-bit representative of a signed 64-bit value.
pub open spec fn rep_u64(n: int) -> u64 {
    (if n < 0 {
        n + 0x1_0000_0000_0000_0000
    } else {
        n
    }) as u64
}

/// A string: its UTF-8 bytes behind their 64-bit length.
pub open spec fn enc_str(s: Seq<char>) -> Seq<u8> {
    spec_u64_to_le_bytes(encode_utf8(s).len() as u64) + encode_utf8(s)
}

/// An optional string: a presence tag, then the string.
pub open spec fn enc_opt_str(s: Option<Seq<char>>) -> Seq<u8> {
    match s {
        None => seq![0u8],
        Some(v) => seq![1u8] + enc_str(v),
    }
}

/// The tag byte of a user classification.
pub open spec fn user_type_tag(t: UserType) -> u8 {
    match t {
        UserType::Individual => 0,
        UserType::Company => 1,
    }
}

/// A user snapshot: every field in order, each self-delimiting.
pub open spec fn enc_user(u: UserV) -> Seq<u8> {
    spec_u128_to_le_bytes(u.id) + enc_str(u.username) + enc_opt_str(u.email) + enc_opt_str(u.name)
        + enc_opt_str(u.avatar) + seq![user_type_tag(u.user_type)] + enc_opt_str(u.phone_number)
        + spec_u64_to_le_bytes(rep_u64(u.created)) + spec_u64_to_le_bytes(rep_u64(u.updated))
}

/// An optional user: a presence tag, then the user.
pub open spec fn enc_opt_user(o: Option<UserV>) -> Seq<u8> {
    match o {
        None => seq![0u8],
        Some(u) => seq![1u8] + enc_user(u),
    }
}

/// A user collection: the count, then each user in order.
pub open spec fn enc_users_list(us: Seq<UserV>) -> Seq<u8>
    decreases us.len(),
{
    if us.len() == 0 {
        Seq::empty()
    } else {
        enc_user(us[0]) + enc_users_list(us.drop_first())
    }
}

pub open spec fn enc_users(us: Seq<UserV>) -> Seq<u8> {
    spec_u64_to_le_bytes(us.len() as u64) + enc_users_list(us)
}

/// A string value the format can carry: its UTF-8 form is
/// 64-bit-length addressable.
pub open spec fn str_v_wf(s: Seq<char>) -> bool {
    encode_utf8(s).len() < two_64()
}

pub open spec fn opt_str_v_wf(s: Option<Seq<char>>) -> bool {
    match s {
        None => true,
        Some(v) => str_v_wf(v),
    }
}

/// A user value the format can carry: timestamps fit 64 signed bits
/// and each string is 64-bit-length addressable.
pub open spec fn user_v_wf(u: UserV) -> bool {
    &&& str_v_wf(u.username)
    &&& opt_str_v_wf(u.email)
    &&& opt_str_v_wf(u.name)
    &&& opt_str_v_wf(u.avatar)
    &&& opt_str_v_wf(u.phone_number)
    &&& i64::MIN <= u.created <= i64::MAX
    &&& i64::MIN <= u.updated <= i64::MAX
}

pub open spec fn opt_user_v_wf(o: Option<UserV>) -> bool {
    match o {
        None => true,
        Some(u) => user_v_wf(u),
    }
}

pub open spec fn users_v_wf(us: Seq<UserV>) -> bool {
    forall|i: int| 0 <= i < us.len() ==> user_v_wf(#[trigger] us[i])
}

/// Exhibits that a real string is format-carriable: its byte form
/// exists in memory, so its length is machine-bounded.
pub fn str_wf_witness(s: &String)
    ensures
        str_v_wf(s@),
{
    let b = s.as_str().as_bytes();
    let n = b.len();
    proof {
        assert(n == encode_utf8(s@).len());
    }
}

pub fn opt_str_wf_witness(s: &Option<String>)
    ensures
        opt_str_v_wf(view_opt_string(*s)),
{
    match s {
        Some(v) => str_wf_witness(v),
        None => {},
    }
}

/// Exhibits that a real user value is format-carriable.
pub fn user_wf_witness(u: &User)
    ensures
        user_v_wf(u@),
{
    str_wf_witness(&u.username);
    opt_str_wf_witness(&u.email);
    opt_str_wf_witness(&u.name);
    opt_str_wf_witness(&u.avatar);
    opt_str_wf_witness(&u.phone_number);
}

// ---------------------------------------------------------------------
// Encoders.

/// Appends a byte sequence.
fn push_bytes(out: &mut Vec<u8>, b: &Vec<u8>)
    ensures
        final(out)@ == old(out)@ + b@,
{
    let n = b.len();
    for k in 0..n
        invariant
            n == b.len(),
            out@ =~= old(out)@ + b@.subrange(0, k as int),
    {
        out.push(b[k]);
        proof {
            assert(out@ =~= old(out)@ + b@.subrange(0, k as int + 1));
        }
    }
    proof {
        assert(out@ =~= old(out)@ + b@);
    }
}

/// Appends the 8-byte little-endian form of `x`.
fn push_u64(out: &mut Vec<u8>, x: u64)
    ensures
        final(out)@ == old(out)@ + spec_u64_to_le_bytes(x),
{
    let b = u64_to_le_bytes(x);
    push_bytes(out, &b);
}

/// Appends the 16-byte little-endian form of `x`.
fn push_u128(out: &mut Vec<u8>, x: u128)
    ensures
        final(out)@ == old(out)@ + spec_u128_to_le_bytes(x),
{
    let b = u128_to_le_bytes(x);
    push_bytes(out, &b);
}

/// Appends a length-prefixed string.
fn push_str(out: &mut Vec<u8>, s: &String)
    ensures
        final(out)@ == old(out)@ + enc_str(s@),
        str_v_wf(s@),
{
    let bytes = s.as_str().as_bytes_vec();
    let n = bytes.len();
    push_u64(out, n as u64);
    push_bytes(out, &bytes);
    proof {
        assert(encode_utf8(s@).len() < two_64());
        assert(n as u64 == encode_utf8(s@).len() as u64);
        assert(final(out)@ =~= old(out)@ + enc_str(s@));
    }
}

/// Appends a tagged optional string.
fn push_opt_str(out: &mut Vec<u8>, s: &Option<String>)
    ensures
        final(out)@ == old(out)@ + enc_opt_str(view_opt_string(*s)),
        opt_str_v_wf(view_opt_string(*s)),
{
    match s {
        None => {
            out.push(0u8);
            proof {
                assert(final(out)@ =~= old(out)@ + enc_opt_str(view_opt_string(*s)));
            }
        },
        Some(v) => {
            out.push(1u8);
            let ghost mid = out@;
            push_str(out, v);
            proof {
                assert(mid =~= old(out)@ + seq![1u8]);
                assert(final(out)@ =~= old(out)@ + enc_opt_str(view_opt_string(*s)));
            }
        },
    }
}

/// Appends the representative of a signed 64-bit value.
fn push_i64(out: &mut Vec<u8>, x: i64)
    ensures
        final(out)@ == old(out)@ + spec_u64_to_le_bytes(rep_u64(x as int)),
{
    let r: u64 = if x >= 0 {
        x as u64
    } else {
        let m = (-(x + 1)) as u64;
        u64::MAX - m
    };
    proof {
        assert(r == rep_u64(x as int));
    }
    push_u64(out, r);
}

/// Appends a user snapshot.
#[verifier::rlimit(60)]
fn push_user(out: &mut Vec<u8>, u: &User)
    ensures
        final(out)@ == old(out)@ + enc_user(u@),
        user_v_wf(u@),
{
    push_u128(out, u.id.value);
    push_str(out, &u.username);
    push_opt_str(out, &u.email);
    push_opt_str(out, &u.name);
    push_opt_str(out, &u.avatar);
    match u.user_type {
        UserType::Individual => out.push(0u8),
        UserType::Company => out.push(1u8),
    }
    push_opt_str(out, &u.phone_number);
    push_i64(out, u.created);
    push_i64(out, u.updated);
    proof {
        assert(final(out)@ =~= old(out)@ + enc_user(u@));
    }
}

/// Serializes an optional user for the cache.
pub fn encode_opt_user(o: &Option<User>) -> (r: Vec<u8>)
    ensures
        r@ == enc_opt_user(crate::opt_view(*o)),
        opt_user_v_wf(crate::opt_view(*o)),
{
    let mut out: Vec<u8> = Vec::new();
    match o {
        None => {
            out.push(0u8);
            proof {
                assert(out@ =~= enc_opt_user(crate::opt_view(*o)));
            }
        },
        Some(u) => {
            out.push(1u8);
            let ghost mid = out@;
            push_user(&mut out, u);
            proof {
                assert(mid =~= seq![1u8]);
                assert(out@ =~= enc_opt_user(crate::opt_view(*o)));
            }
        },
    }
    out
}

/// Serializes a user collection for the cache.
pub fn encode_users(us: &Vec<User>) -> (r: Vec<u8>)
    ensures
        r@ == enc_users(crate::seq_view(us@)),
        users_v_wf(crate::seq_view(us@)),
{
    let ghost vs = crate::seq_view(us@);
    let mut out: Vec<u8> = Vec::new();
    let n = us.len();
    push_u64(&mut out, n as u64);
    let ghost header = out@;
    for k in 0..n
        invariant
            n == us.len(),
            vs == crate::seq_view(us@),
            header == spec_u64_to_le_bytes(n as u64),
            out@ =~= header + enc_users_list(vs.take(k as int)),
            forall|j: int| 0 <= j < k ==> user_v_wf(#[trigger] vs[j]),
    {
        let ghost before = out@;
        push_user(&mut out, &us[k]);
        proof {
            assert(us@[k as int]@ == vs[k as int]);
            lemma_enc_users_list_snoc(vs.take(k as int), vs[k as int]);
            assert(vs.take(k as int).push(vs[k as int]) =~= vs.take(k as int + 1));
            assert(out@ =~= header + enc_users_list(vs.take(k as int + 1)));
        }
    }
    proof {
        assert(vs.take(n as int) =~= vs);
        assert(out@ =~= enc_users(vs));
    }
    out
}

/// Appending one user to a collection appends its encoding.
proof fn lemma_enc_users_list_snoc(us: Seq<UserV>, u: UserV)
    ensures
        enc_users_list(us.push(u)) == enc_users_list(us) + enc_user(u),
    decreases us.len(),
{
    let s = us.push(u);
    if us.len() == 0 {
        assert(s[0] == u);
        assert(s.drop_first() =~= Seq::<UserV>::empty());
        assert(enc_users_list(Seq::<UserV>::empty()) =~= Seq::<u8>::empty());
        assert(enc_users_list(s) =~= enc_user(u) + Seq::<u8>::empty());
        assert(enc_user(u) + Seq::<u8>::empty() =~= enc_user(u));
        assert(enc_users_list(us) + enc_user(u) =~= enc_user(u));
    } else {
        assert(s[0] == us[0]);
        assert(s.drop_first() =~= us.drop_first().push(u));
        lemma_enc_users_list_snoc(us.drop_first(), u);
        assert(enc_users_list(s) =~= enc_user(us[0]) + (enc_users_list(us.drop_first()) + enc_user(
            u,
        )));
        assert(enc_user(us[0]) + (enc_users_list(us.drop_first()) + enc_user(u)) =~= (enc_user(
            us[0],
        ) + enc_users_list(us.drop_first())) + enc_user(u));
    }
}

// ---------------------------------------------------------------------
// Decoders.

/// Splitting a concatenation found inside a larger sequence.
proof fn lemma_concat_split(b: Seq<u8>, pos: int, x: Seq<u8>, rest: Seq<u8>)
    requires
        0 <= pos <= b.len(),
        b.skip(pos) == x + rest,
    ensures
        pos + x.len() + rest.len() == b.len(),
        b.subrange(pos, pos + x.len()) == x,
        b.skip(pos + x.len()) == rest,
{
    assert(b.skip(pos).len() == b.len() - pos);
    assert forall|i: int| 0 <= i < x.len() implies b.subrange(pos, pos + x.len())[i] == x[i] by {
        assert(b.subrange(pos, pos + x.len())[i] == b[pos + i]);
        assert(b.skip(pos)[i] == b[pos + i]);
        assert((x + rest)[i] == x[i]);
    }
    assert(b.subrange(pos, pos + x.len()) =~= x);
    assert forall|i: int| 0 <= i < rest.len() implies b.skip(pos + x.len())[i] == rest[i] by {
        assert(b.skip(pos + x.len())[i] == b[pos + x.len() + i]);
        assert(b.skip(pos)[x.len() + i] == b[pos + x.len() + i]);
        assert((x + rest)[x.len() + i] == rest[i]);
    }
    assert(b.skip(pos + x.len()) =~= rest);
}

/// Reads 8 bytes as a little-endian unsigned value.
fn read_u64(b: &Vec<u8>, pos: usize) -> (r: Option<(u64, usize)>)
    ensures
        match r {
            Some(xp) => pos + 8 <= b@.len() && xp.1 == pos + 8 && b@.subrange(
                pos as int,
                pos as int + 8,
            ) == spec_u64_to_le_bytes(xp.0),
            None => pos + 8 > b@.len(),
        },
{
    if b.len() < 8 || pos > b.len() - 8 {
        return None;
    }
    let s = vstd::slice::slice_subrange(b.as_slice(), pos, pos + 8);
    let x = u64_from_le_bytes(s);
    proof {
        lemma_auto_spec_u64_to_from_le_bytes();
    }
    Some((x, pos + 8))
}

/// Reads 16 bytes as a little-endian unsigned value.
fn read_u128(b: &Vec<u8>, pos: usize) -> (r: Option<(u128, usize)>)
    ensures
        match r {
            Some(xp) => pos + 16 <= b@.len() && xp.1 == pos + 16 && b@.subrange(
                pos as int,
                pos as int + 16,
            ) == spec_u128_to_le_bytes(xp.0),
            None => pos + 16 > b@.len(),
        },
{
    if b.len() < 16 || pos > b.len() - 16 {
        return None;
    }
    let s = vstd::slice::slice_subrange(b.as_slice(), pos, pos + 16);
    let x = u128_from_le_bytes(s);
    proof {
        lemma_auto_spec_u128_to_from_le_bytes();
    }
    Some((x, pos + 16))
}

/// The layout of a length-prefixed string found at `pos`.
proof fn lemma_str_layout(b: Seq<u8>, pos: int, sv: Seq<char>, rest: Seq<u8>)
    requires
        str_v_wf(sv),
        0 <= pos <= b.len(),
        b.skip(pos) == enc_str(sv) + rest,
    ensures
        ({
            let ulen = encode_utf8(sv).len() as int;
            &&& pos + 8 + ulen + rest.len() == b.len()
            &&& b.subrange(pos, pos + 8) == spec_u64_to_le_bytes(ulen as u64)
            &&& b.subrange(pos + 8, pos + 8 + ulen) == encode_utf8(sv)
            &&& valid_utf8(b.subrange(pos + 8, pos + 8 + ulen))
            &&& b.skip(pos + 8 + ulen) == rest
        }),
{
    let ulen = encode_utf8(sv).len() as int;
    lemma_auto_spec_u64_to_from_le_bytes();
    assert(enc_str(sv) + rest =~= spec_u64_to_le_bytes(ulen as u64) + (encode_utf8(sv) + rest));
    lemma_concat_split(b, pos, spec_u64_to_le_bytes(ulen as u64), encode_utf8(sv) + rest);
    lemma_concat_split(b, pos + 8, encode_utf8(sv), rest);
    encode_utf8_valid_utf8(sv);
}

/// Reads a length-prefixed string: every encoding decodes to the
/// string it came from.
fn read_str(b: &Vec<u8>, pos: usize) -> (r: Option<(String, usize)>)
    requires
        pos <= b@.len(),
    ensures
        r is Some ==> r.unwrap().1 <= b@.len(),
        forall|sv: Seq<char>, rest: Seq<u8>|
            str_v_wf(sv) && b@.skip(pos as int) == #[trigger] (enc_str(sv) + rest) ==> r is Some
                && r.unwrap().0@ == sv && r.unwrap().1 == pos + 8 + encode_utf8(sv).len(),
{
    proof {
        lemma_auto_spec_u64_to_from_le_bytes();
    }
    let np = match read_u64(b, pos) {
        Some(v) => v,
        None => {
            proof {
                assert forall|sv: Seq<char>, rest: Seq<u8>|
                    str_v_wf(sv) && #[trigger] (b@.skip(pos as int)) == enc_str(sv)
                        + rest implies false by {
                    lemma_str_layout(b@, pos as int, sv, rest);
                }
            }
            return None;
        },
    };
    let n = np.0;
    let p1 = np.1;
    let rem = b.len() - p1;
    if n > rem as u64 {
        proof {
            assert forall|sv: Seq<char>, rest: Seq<u8>|
                str_v_wf(sv) && #[trigger] (b@.skip(pos as int)) == enc_str(sv)
                    + rest implies false by {
                lemma_str_layout(b@, pos as int, sv, rest);
                let ulen = encode_utf8(sv).len() as int;
                assert(spec_u64_to_le_bytes(n) == spec_u64_to_le_bytes(ulen as u64));
                assert(n == ulen as u64);
            }
        }
        return None;
    }
    let nu = n as usize;
    let s2 = vstd::slice::slice_subrange(b.as_slice(), p1, p1 + nu);
    let bv = vstd::slice::slice_to_vec(s2);
    match string_from_utf8(bv) {
        Some(st) => {
            proof {
                assert forall|sv: Seq<char>, rest: Seq<u8>|
                    str_v_wf(sv) && #[trigger] (b@.skip(pos as int)) == enc_str(sv)
                        + rest implies Some((st, p1 + nu)) is Some && st@ == sv && p1 + nu == pos
                    + 8 + encode_utf8(sv).len() by {
                    lemma_str_layout(b@, pos as int, sv, rest);
                    let ulen = encode_utf8(sv).len() as int;
                    assert(n == ulen as u64);
                    assert(encode_utf8(st@) == encode_utf8(sv));
                    encode_utf8_decode_utf8(st@);
                    encode_utf8_decode_utf8(sv);
                }
            }
            Some((st, p1 + nu))
        },
        None => {
            proof {
                assert forall|sv: Seq<char>, rest: Seq<u8>|
                    str_v_wf(sv) && #[trigger] (b@.skip(pos as int)) == enc_str(sv)
                        + rest implies false by {
                    lemma_str_layout(b@, pos as int, sv, rest);
                    let ulen = encode_utf8(sv).len() as int;
                    assert(n == ulen as u64);
                }
            }
            None
        },
    }
}

/// Reads a tagged optional string.
fn read_opt_str(b: &Vec<u8>, pos: usize) -> (r: Option<(Option<String>, usize)>)
    requires
        pos <= b@.len(),
    ensures
        r is Some ==> r.unwrap().1 <= b@.len(),
        forall|ov: Option<Seq<char>>, rest: Seq<u8>|
            opt_str_v_wf(ov) && b@.skip(pos as int) == #[trigger] (enc_opt_str(ov)
                + rest) ==> r is Some && view_opt_string(r.unwrap().0) == ov && r.unwrap().1 == pos
                + enc_opt_str(ov).len(),
{
    proof {
        lemma_auto_spec_u64_to_from_le_bytes();
    }
    if pos >= b.len() {
        proof {
            assert forall|ov: Option<Seq<char>>, rest: Seq<u8>|
                opt_str_v_wf(ov) && b@.skip(pos as int) == #[trigger] (enc_opt_str(ov)
                    + rest) implies false by {
                assert(b@.skip(pos as int).len() == 0);
                assert((enc_opt_str(ov) + rest).len() >= 1);
            }
        }
        return None;
    }
    let tag = b[pos];
    if tag == 0 {
        proof {
            assert forall|ov: Option<Seq<char>>, rest: Seq<u8>|
                opt_str_v_wf(ov) && b@.skip(pos as int) == #[trigger] (enc_opt_str(ov)
                    + rest) implies ov is None && 1 == enc_opt_str(ov).len() by {
                assert(b@.skip(pos as int)[0] == b@[pos as int]);
                assert((enc_opt_str(ov) + rest)[0] == enc_opt_str(ov)[0]);
                if ov is Some {
                    assert(enc_opt_str(ov)[0] == 1);
                    assert(false);
                }
            }
        }
        Some((None, pos + 1))
    } else if tag == 1 {
        let inner = read_str(b, pos + 1);
        if inner.is_none() {
            proof {
                assert forall|ov: Option<Seq<char>>, rest: Seq<u8>|
                    opt_str_v_wf(ov) && b@.skip(pos as int) == #[trigger] (enc_opt_str(ov)
                        + rest) implies false by {
                    assert(b@.skip(pos as int)[0] == b@[pos as int]);
                    assert((enc_opt_str(ov) + rest)[0] == enc_opt_str(ov)[0]);
                    if ov is None {
                        assert(enc_opt_str(ov)[0] == 0);
                        assert(false);
                    }
                    let sv = ov.unwrap();
                    assert(enc_opt_str(ov) + rest =~= seq![1u8] + (enc_str(sv) + rest));
                    lemma_concat_split(b@, pos as int, seq![1u8], enc_str(sv) + rest);
                    assert(b@.skip((pos + 1) as int) == enc_str(sv) + rest);
                    assert(inner is Some);
                }
            }
            return None;
        }
        let sp = inner.unwrap();
        proof {
            assert forall|ov: Option<Seq<char>>, rest: Seq<u8>|
                opt_str_v_wf(ov) && b@.skip(pos as int) == #[trigger] (enc_opt_str(ov)
                    + rest) implies view_opt_string(Some(sp.0)) == ov && sp.1 == pos
                + enc_opt_str(ov).len() by {
                assert(b@.skip(pos as int)[0] == b@[pos as int]);
                assert((enc_opt_str(ov) + rest)[0] == enc_opt_str(ov)[0]);
                if ov is None {
                    assert(enc_opt_str(ov)[0] == 0);
                    assert(false);
                }
                let sv = ov.unwrap();
                assert(enc_opt_str(ov) + rest =~= seq![1u8] + (enc_str(sv) + rest));
                lemma_concat_split(b@, pos as int, seq![1u8], enc_str(sv) + rest);
                assert(b@.skip((pos + 1) as int) == enc_str(sv) + rest);
                assert(str_v_wf(sv));
                assert(inner is Some && inner.unwrap().0@ == sv);
                assert(sp.0@ == sv);
                assert(enc_opt_str(ov).len() == 1 + 8 + encode_utf8(sv).len());
                assert(sp.1 == pos + enc_opt_str(ov).len());
            }
        }
        Some((Some(sp.0), sp.1))
    } else {
        proof {
            assert forall|ov: Option<Seq<char>>, rest: Seq<u8>|
                opt_str_v_wf(ov) && b@.skip(pos as int) == #[trigger] (enc_opt_str(ov)
                    + rest) implies false by {
                assert(b@.skip(pos as int)[0] == b@[pos as int]);
                assert((enc_opt_str(ov) + rest)[0] == enc_opt_str(ov)[0]);
                if ov is Some {
                    assert(enc_opt_str(ov)[0] == 1);
                } else {
                    assert(enc_opt_str(ov)[0] == 0);
                }
            }
        }
        None
    }
}

/// The layout of a user snapshot found at `pos`: where each field
/// stands in the buffer.
#[verifier::rlimit(100)]
proof fn lemma_user_layout(b: Seq<u8>, pos: int, u: UserV, rest: Seq<u8>)
    requires
        user_v_wf(u),
        0 <= pos <= b.len(),
        b.skip(pos) == enc_user(u) + rest,
    ensures
        ({
            let p1 = pos + 16;
            let p2 = p1 + enc_str(u.username).len();
            let p3 = p2 + enc_opt_str(u.email).len();
            let p4 = p3 + enc_opt_str(u.name).len();
            let p5 = p4 + enc_opt_str(u.avatar).len();
            let p6 = p5 + 1;
            let p7 = p6 + enc_opt_str(u.phone_number).len();
            let p8 = p7 + 8;
            let p9 = p8 + 8;
            &&& p9 == pos + enc_user(u).len()
            &&& p9 + rest.len() == b.len()
            &&& b.subrange(pos, p1) == spec_u128_to_le_bytes(u.id)
            &&& b.skip(p1) == enc_str(u.username) + b.skip(p2)
            &&& b.skip(p2) == enc_opt_str(u.email) + b.skip(p3)
            &&& b.skip(p3) == enc_opt_str(u.name) + b.skip(p4)
            &&& b.skip(p4) == enc_opt_str(u.avatar) + b.skip(p5)
            &&& b[p5] == user_type_tag(u.user_type)
            &&& b.skip(p6) == enc_opt_str(u.phone_number) + b.skip(p7)
            &&& b.subrange(p7, p8) == spec_u64_to_le_bytes(rep_u64(u.created))
            &&& b.subrange(p8, p9) == spec_u64_to_le_bytes(rep_u64(u.updated))
            &&& b.skip(p9) == rest
        }),
{
    lemma_auto_spec_u64_to_from_le_bytes();
    lemma_auto_spec_u128_to_from_le_bytes();
    let a1 = spec_u128_to_le_bytes(u.id);
    let a2 = enc_str(u.username);
    let a3 = enc_opt_str(u.email);
    let a4 = enc_opt_str(u.name);
    let a5 = enc_opt_str(u.avatar);
    let a6 = seq![user_type_tag(u.user_type)];
    let a7 = enc_opt_str(u.phone_number);
    let a8 = spec_u64_to_le_bytes(rep_u64(u.created));
    let a9 = spec_u64_to_le_bytes(rep_u64(u.updated));
    assert(enc_user(u) + rest =~= a1 + (a2 + (a3 + (a4 + (a5 + (a6 + (a7 + (a8 + (a9
        + rest)))))))));
    lemma_concat_split(b, pos, a1, a2 + (a3 + (a4 + (a5 + (a6 + (a7 + (a8 + (a9 + rest))))))));
    let p1 = pos + 16;
    lemma_concat_split(b, p1, a2, a3 + (a4 + (a5 + (a6 + (a7 + (a8 + (a9 + rest)))))));
    let p2 = p1 + a2.len();
    lemma_concat_split(b, p2, a3, a4 + (a5 + (a6 + (a7 + (a8 + (a9 + rest))))));
    let p3 = p2 + a3.len();
    lemma_concat_split(b, p3, a4, a5 + (a6 + (a7 + (a8 + (a9 + rest)))));
    let p4 = p3 + a4.len();
    lemma_concat_split(b, p4, a5, a6 + (a7 + (a8 + (a9 + rest))));
    let p5 = p4 + a5.len();
    lemma_concat_split(b, p5, a6, a7 + (a8 + (a9 + rest)));
    let p6 = p5 + 1;
    lemma_concat_split(b, p6, a7, a8 + (a9 + rest));
    let p7 = p6 + a7.len();
    lemma_concat_split(b, p7, a8, a9 + rest);
    let p8 = p7 + 8;
    lemma_concat_split(b, p8, a9, rest);
    assert(b[p5] == b.subrange(p5, p6)[0]);
    assert(b.skip(p1) =~= a2 + b.skip(p2));
    assert(b.skip(p2) =~= a3 + b.skip(p3));
    assert(b.skip(p3) =~= a4 + b.skip(p4));
    assert(b.skip(p4) =~= a5 + b.skip(p5));
    assert(b.skip(p6) =~= a7 + b.skip(p7));
}

/// Turns the unsigned representative back into the signed value.
fn rep_to_i64(x: u64) -> (r: i64)
    ensures
        rep_u64(r as int) == x,
        i64::MIN <= r as int <= i64::MAX,
        forall|n: int| i64::MIN <= n <= i64::MAX && rep_u64(n) == x ==> n == r as int,
{
    if x <= i64::MAX as u64 {
        x as i64
    } else {
        let m = u64::MAX - x;
        -(m as i64) - 1
    }
}

/// Reads a user snapshot at `pos`: every encoding decodes to the
/// user it came from.
#[verifier::rlimit(100)]
fn decode_user_at(b: &Vec<u8>, pos: usize) -> (r: Option<(User, usize)>)
    requires
        pos <= b@.len(),
    ensures
        r is Some ==> r.unwrap().1 <= b@.len(),
        forall|u: UserV, rest: Seq<u8>|
            user_v_wf(u) && b@.skip(pos as int) == #[trigger] (enc_user(u) + rest) ==> r is Some
                && r.unwrap().0@ == u && r.unwrap().1 == pos + enc_user(u).len(),
{
    proof {
        lemma_auto_spec_u64_to_from_le_bytes();
        lemma_auto_spec_u128_to_from_le_bytes();
    }
    let idp = match read_u128(b, pos) {
        Some(v) => v,
        None => {
            proof {
                assert forall|u: UserV, rest: Seq<u8>|
                    user_v_wf(u) && b@.skip(pos as int) == #[trigger] (enc_user(u)
                        + rest) implies false by {
                    lemma_user_layout(b@, pos as int, u, rest);
                }
            }
            return None;
        },
    };
    let username_p = match read_str(b, idp.1) {
        Some(v) => v,
        None => {
            proof {
                assert forall|u: UserV, rest: Seq<u8>|
                    user_v_wf(u) && b@.skip(pos as int) == #[trigger] (enc_user(u)
                        + rest) implies false by {
                    lemma_user_layout(b@, pos as int, u, rest);
                }
            }
            return None;
        },
    };
    let email_p = match read_opt_str(b, username_p.1) {
        Some(v) => v,
        None => {
            proof {
                assert forall|u: UserV, rest: Seq<u8>|
                    user_v_wf(u) && b@.skip(pos as int) == #[trigger] (enc_user(u)
                        + rest) implies false by {
                    lemma_user_layout(b@, pos as int, u, rest);
                    assert(spec_u128_to_le_bytes(idp.0) == spec_u128_to_le_bytes(u.id));
                }
            }
            return None;
        },
    };
    let name_p = match read_opt_str(b, email_p.1) {
        Some(v) => v,
        None => {
            proof {
                assert forall|u: UserV, rest: Seq<u8>|
                    user_v_wf(u) && b@.skip(pos as int) == #[trigger] (enc_user(u)
                        + rest) implies false by {
                    lemma_user_layout(b@, pos as int, u, rest);
                }
            }
            return None;
        },
    };
    let avatar_p = match read_opt_str(b, name_p.1) {
        Some(v) => v,
        None => {
            proof {
                assert forall|u: UserV, rest: Seq<u8>|
                    user_v_wf(u) && b@.skip(pos as int) == #[trigger] (enc_user(u)
                        + rest) implies false by {
                    lemma_user_layout(b@, pos as int, u, rest);
                }
            }
            return None;
        },
    };
    let p5 = avatar_p.1;
    if p5 >= b.len() {
        proof {
            assert forall|u: UserV, rest: Seq<u8>|
                user_v_wf(u) && #[trigger] (b@.skip(pos as int)) == enc_user(u)
                    + rest implies false by {
                lemma_user_layout(b@, pos as int, u, rest);
            }
        }
        return None;
    }
    let tag = b[p5];
    let user_type = if tag == 0 {
        UserType::Individual
    } else if tag == 1 {
        UserType::Company
    } else {
        proof {
            assert forall|u: UserV, rest: Seq<u8>|
                user_v_wf(u) && #[trigger] (b@.skip(pos as int)) == enc_user(u)
                    + rest implies false by {
                lemma_user_layout(b@, pos as int, u, rest);
            }
        }
        return None;
    };
    let phone_p = match read_opt_str(b, p5 + 1) {
        Some(v) => v,
        None => {
            proof {
                assert forall|u: UserV, rest: Seq<u8>|
                    user_v_wf(u) && b@.skip(pos as int) == #[trigger] (enc_user(u)
                        + rest) implies false by {
                    lemma_user_layout(b@, pos as int, u, rest);
                }
            }
            return None;
        },
    };
    let created_p = match read_u64(b, phone_p.1) {
        Some(v) => v,
        None => {
            proof {
                assert forall|u: UserV, rest: Seq<u8>|
                    user_v_wf(u) && b@.skip(pos as int) == #[trigger] (enc_user(u)
                        + rest) implies false by {
                    lemma_user_layout(b@, pos as int, u, rest);
                }
            }
            return None;
        },
    };
    let updated_p = match read_u64(b, created_p.1) {
        Some(v) => v,
        None => {
            proof {
                assert forall|u: UserV, rest: Seq<u8>|
                    user_v_wf(u) && b@.skip(pos as int) == #[trigger] (enc_user(u)
                        + rest) implies false by {
                    lemma_user_layout(b@, pos as int, u, rest);
                }
            }
            return None;
        },
    };
    let created = rep_to_i64(created_p.0);
    let updated = rep_to_i64(updated_p.0);
    let user = User {
        id: crate::Uid { value: idp.0 },
        username: username_p.0,
        email: email_p.0,
        name: name_p.0,
        avatar: avatar_p.0,
        user_type,
        phone_number: phone_p.0,
        created,
        updated,
    };
    let r = Some((user, updated_p.1));
    proof {
        assert forall|u: UserV, rest: Seq<u8>|
            user_v_wf(u) && b@.skip(pos as int) == #[trigger] (enc_user(u) + rest) implies r
            is Some && r.unwrap().0@ == u && r.unwrap().1 == pos + enc_user(u).len() by {
            lemma_user_layout(b@, pos as int, u, rest);
            assert(spec_u128_to_le_bytes(idp.0) == spec_u128_to_le_bytes(u.id));
            assert(idp.0 == u.id);
            assert(username_p.0@ == u.username);
            assert(view_opt_string(email_p.0) == u.email);
            assert(view_opt_string(name_p.0) == u.name);
            assert(view_opt_string(avatar_p.0) == u.avatar);
            assert(tag == user_type_tag(u.user_type));
            assert(user_type == u.user_type);
            assert(view_opt_string(phone_p.0) == u.phone_number);
            assert(spec_u64_to_le_bytes(created_p.0) == spec_u64_to_le_bytes(rep_u64(u.created)));
            assert(created_p.0 == rep_u64(u.created));
            assert(created as int == u.created);
            assert(spec_u64_to_le_bytes(updated_p.0) == spec_u64_to_le_bytes(rep_u64(u.updated)));
            assert(updated as int == u.updated);
            assert(user@ == u);
        }
    }
    r
}

/// Deserializes an optional user: every encoding decodes to the value
/// it came from.
pub fn decode_opt_user(b: &Vec<u8>) -> (r: Option<Option<User>>)
    ensures
        forall|ov: Option<UserV>|
            opt_user_v_wf(ov) && b@ == #[trigger] enc_opt_user(ov) ==> r is Some && crate::opt_view(
                r.unwrap(),
            ) == ov,
{
    if b.len() == 0 {
        proof {
            assert forall|ov: Option<UserV>|
                opt_user_v_wf(ov) && b@ == #[trigger] enc_opt_user(ov) implies false by {
                assert(enc_opt_user(ov).len() >= 1);
            }
        }
        return None;
    }
    let tag = b[0];
    if tag == 0 {
        proof {
            assert forall|ov: Option<UserV>|
                opt_user_v_wf(ov) && b@ == #[trigger] enc_opt_user(ov) implies ov is None by {
                if ov is Some {
                    assert(enc_opt_user(ov)[0] == 1);
                }
            }
        }
        Some(None)
    } else if tag == 1 {
        let inner = decode_user_at(b, 1);
        proof {
            assert forall|ov: Option<UserV>|
                opt_user_v_wf(ov) && b@ == #[trigger] enc_opt_user(ov) implies (ov is Some
                && b@.skip(1) == enc_user(ov.unwrap()) + Seq::<u8>::empty()) by {
                if ov is None {
                    assert(enc_opt_user(ov)[0] == 0);
                    assert(false);
                }
                let u = ov.unwrap();
                assert(b@.skip(0) =~= b@);
                assert(b@ =~= seq![1u8] + (enc_user(u) + Seq::<u8>::empty()));
                lemma_concat_split(b@, 0, seq![1u8], enc_user(u) + Seq::<u8>::empty());
            }
        }
        match inner {
            Some(up) => Some(Some(up.0)),
            None => None,
        }
    } else {
        proof {
            assert forall|ov: Option<UserV>|
                opt_user_v_wf(ov) && b@ == #[trigger] enc_opt_user(ov) implies false by {
                if ov is Some {
                    assert(enc_opt_user(ov)[0] == 1);
                } else {
                    assert(enc_opt_user(ov)[0] == 0);
                }
            }
        }
        None
    }
}

/// A collection encodes to at least one byte per element.
proof fn lemma_enc_users_list_len(us: Seq<UserV>)
    ensures
        enc_users_list(us).len() >= us.len(),
    decreases us.len(),
{
    if us.len() > 0 {
        lemma_enc_users_list_len(us.drop_first());
        lemma_auto_spec_u128_to_from_le_bytes();
        assert(enc_user(us[0]).len() >= 1);
    }
}

/// Splitting a collection encoding at an element boundary.
proof fn lemma_enc_users_list_split(us: Seq<UserV>, k: int)
    requires
        0 <= k <= us.len(),
    ensures
        enc_users_list(us) == enc_users_list(us.take(k)) + enc_users_list(us.skip(k)),
    decreases k,
{
    if k == 0 {
        assert(us.take(0) =~= Seq::<UserV>::empty());
        assert(us.skip(0) =~= us);
        assert(enc_users_list(us.take(0)) =~= Seq::<u8>::empty());
        assert(enc_users_list(us) =~= Seq::<u8>::empty() + enc_users_list(us));
    } else {
        lemma_enc_users_list_split(us, k - 1);
        lemma_enc_users_list_snoc(us.take(k - 1), us[k - 1]);
        assert(us.take(k - 1).push(us[k - 1]) =~= us.take(k));
        assert(us.skip(k - 1)[0] == us[k - 1]);
        assert(us.skip(k - 1).drop_first() =~= us.skip(k));
        assert(enc_users_list(us.skip(k - 1)) == enc_user(us[k - 1]) + enc_users_list(us.skip(k)));
        assert(enc_users_list(us) =~= (enc_users_list(us.take(k - 1)) + enc_user(us[k - 1]))
            + enc_users_list(us.skip(k)));
    }
}

/// Deserializes a user collection: every encoding decodes to the
/// collection it came from.
#[verifier::rlimit(100)]
pub fn decode_users(b: &Vec<u8>) -> (r: Option<Vec<User>>)
    ensures
        forall|us: Seq<UserV>|
            users_v_wf(us) && b@ == #[trigger] enc_users(us) ==> r is Some && crate::seq_view(
                r.unwrap()@,
            ) == us,
{
    proof {
        lemma_auto_spec_u64_to_from_le_bytes();
    }
    let cp = match read_u64(b, 0) {
        Some(v) => v,
        None => {
            proof {
                assert forall|us: Seq<UserV>|
                    users_v_wf(us) && b@ == #[trigger] enc_users(us) implies false by {
                    lemma_enc_users_list_len(us);
                }
            }
            return None;
        },
    };
    let count = cp.0;
    if count > b.len() as u64 {
        proof {
            assert forall|us: Seq<UserV>|
                users_v_wf(us) && b@ == #[trigger] enc_users(us) implies false by {
                lemma_enc_users_list_len(us);
                assert(b@.skip(0) =~= b@);
                lemma_concat_split(b@, 0, spec_u64_to_le_bytes(us.len() as u64), enc_users_list(us));
                assert(spec_u64_to_le_bytes(count) == spec_u64_to_le_bytes(us.len() as u64));
                assert(count == us.len() as u64);
            }
        }
        return None;
    }
    let count_us = count as usize;
    let mut out: Vec<User> = Vec::new();
    let mut pos: usize = 8;
    proof {
        assert forall|us: Seq<UserV>|
            users_v_wf(us) && b@ == #[trigger] enc_users(us) implies us.len() == count_us && 8
            == 8 + enc_users_list(us.take(0)).len() && crate::seq_view(out@) == us.take(0)
            && b@.skip(8) == enc_users_list(us.skip(0)) by {
            lemma_enc_users_list_len(us);
            assert(b@.skip(0) =~= b@);
            lemma_concat_split(b@, 0, spec_u64_to_le_bytes(us.len() as u64), enc_users_list(us));
            assert(spec_u64_to_le_bytes(count) == spec_u64_to_le_bytes(us.len() as u64));
            assert(count == us.len() as u64);
            assert(us.take(0) =~= Seq::<UserV>::empty());
            assert(enc_users_list(us.take(0)) =~= Seq::<u8>::empty());
            assert(crate::seq_view(out@) =~= us.take(0));
            assert(us.skip(0) =~= us);
        }
    }
    for k in 0..count_us
        invariant
            out.len() == k,
            pos <= b@.len(),
            forall|us: Seq<UserV>|
                users_v_wf(us) && b@ == #[trigger] enc_users(us) ==> us.len() == count_us
                    && pos == 8 + enc_users_list(us.take(k as int)).len() && crate::seq_view(out@)
                    == us.take(k as int) && b@.skip(pos as int) == enc_users_list(
                    us.skip(k as int),
                ),
    {
        let up = match decode_user_at(b, pos) {
            Some(v) => v,
            None => {
                proof {
                    assert forall|us: Seq<UserV>|
                        users_v_wf(us) && b@ == #[trigger] enc_users(us) implies false by {
                        assert(us.skip(k as int)[0] == us[k as int]);
                        assert(us.skip(k as int).drop_first() =~= us.skip(k as int + 1));
                        assert(b@.skip(pos as int) == enc_user(us[k as int]) + enc_users_list(
                            us.skip(k as int + 1),
                        ));
                    }
                }
                return None;
            },
        };
        let ghost prev_pos = pos;
        let ghost prev_out = out@;
        out.push(up.0);
        pos = up.1;
        proof {
            assert forall|us: Seq<UserV>|
                users_v_wf(us) && b@ == #[trigger] enc_users(us) implies us.len() == count_us
                && pos == 8 + enc_users_list(us.take(k as int + 1)).len() && crate::seq_view(out@)
                == us.take(k as int + 1) && b@.skip(pos as int) == enc_users_list(
                us.skip(k as int + 1),
            ) by {
                assert(us.skip(k as int)[0] == us[k as int]);
                assert(us.skip(k as int).drop_first() =~= us.skip(k as int + 1));
                assert(b@.skip(prev_pos as int) == enc_user(us[k as int]) + enc_users_list(
                    us.skip(k as int + 1),
                ));
                assert(up.0@ == us[k as int]);
                assert(user_v_wf(us[k as int]));
                lemma_concat_split(
                    b@,
                    prev_pos as int,
                    enc_user(us[k as int]),
                    enc_users_list(us.skip(k as int + 1)),
                );
                lemma_enc_users_list_snoc(us.take(k as int), us[k as int]);
                assert(us.take(k as int).push(us[k as int]) =~= us.take(k as int + 1));
                assert(crate::seq_view(out@) =~= crate::seq_view(prev_out).push(up.0@));
                assert(crate::seq_view(out@) =~= us.take(k as int + 1));
            }
        }
    }
    proof {
        assert forall|us: Seq<UserV>|
            users_v_wf(us) && b@ == #[trigger] enc_users(us) implies crate::seq_view(out@)
            == us by {
            assert(us.take(count_us as int) =~= us);
        }
    }
    Some(out)
}

} // verus!
