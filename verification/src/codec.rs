//! The stored representation of a module record: a self-describing binary
//! blob, the only value type the byte store holds.
//!
//! Layout, in order: the bytecode with an 8-byte little-endian length prefix,
//! the UTF-8 bytes of the function name with the same prefix, then the return
//! tags and the argument tags, one byte per position, each list with the same
//! prefix.  [`lemma_codec_roundtrip`] shows that decoding an encoded record
//! yields the record back.

use vstd::arithmetic::div_mod::{lemma_div_pos_is_pos, lemma_fundamental_div_mod,
    lemma_multiply_divide_lt};
use vstd::prelude::*;
use vstd::utf8::{decode_utf8, encode_utf8, encode_utf8_decode_utf8, encode_utf8_valid_utf8,
    valid_utf8};

use crate::models::{MetadataView, ModuleView, TypeTag, WasmMetadata, WasmModule};

verus! {

/// 256 to the `n`.
pub open spec fn pow256(n: nat) -> int
    decreases n,
{
    if n == 0 {
        1
    } else {
        256 * pow256((n - 1) as nat)
    }
}

/// The `n` little-endian base-256 digits of `x`.
pub open spec fn le_bytes(x: int, n: nat) -> Seq<u8>
    decreases n,
{
    if n == 0 {
        Seq::empty()
    } else {
        seq![(x % 256) as u8] + le_bytes(x / 256, (n - 1) as nat)
    }
}

/// The number a little-endian digit string denotes.
pub open spec fn recompose(s: Seq<u8>) -> int
    decreases s.len(),
{
    if s.len() == 0 {
        0int
    } else {
        s[0] + 256 * recompose(s.drop_first())
    }
}

pub proof fn lemma_le_bytes_len(x: int, n: nat)
    ensures
        le_bytes(x, n).len() == n,
    decreases n,
{
    if n > 0 {
        lemma_le_bytes_len(x / 256, (n - 1) as nat);
    }
}

/// 256 to the `n` is positive and weakly increasing in `n`.
pub proof fn lemma_pow256_le(m: nat, n: nat)
    requires
        m <= n,
    ensures
        1 <= pow256(m) <= pow256(n),
    decreases n,
{
    if n == 0 {
    } else if m == n {
        lemma_pow256_le((n - 1) as nat, (n - 1) as nat);
    } else {
        lemma_pow256_le(m, (n - 1) as nat);
    }
}

/// Recomposing the digits of `x` gives `x` back.
pub proof fn lemma_recompose_le_bytes(x: int, n: nat)
    requires
        0 <= x < pow256(n),
    ensures
        recompose(le_bytes(x, n)) == x,
    decreases n,
{
    if n == 0 {
    } else {
        let rest = le_bytes(x / 256, (n - 1) as nat);
        lemma_le_bytes_len(x / 256, (n - 1) as nat);
        assert(le_bytes(x, n).drop_first() =~= rest);
        lemma_div_pos_is_pos(x, 256);
        lemma_multiply_divide_lt(x, 256, pow256((n - 1) as nat));
        lemma_recompose_le_bytes(x / 256, (n - 1) as nat);
        lemma_fundamental_div_mod(x, 256);
    }
}

/// A digit string denotes a number below 256 to its length.
pub proof fn lemma_recompose_bound(s: Seq<u8>)
    ensures
        0 <= recompose(s) < pow256(s.len()),
    decreases s.len(),
{
    if s.len() > 0 {
        lemma_recompose_bound(s.drop_first());
    }
}

/// Writes `x` as 8 little-endian bytes.
pub fn le64_of(x: u64) -> (r: Vec<u8>)
    ensures
        r@ == le_bytes(x as int, 8),
{
    let mut out: Vec<u8> = Vec::new();
    let mut cur: u64 = x;
    let mut i: usize = 0;
    proof {
        assert(Seq::<u8>::empty() + le_bytes(x as int, 8) =~= le_bytes(x as int, 8));
    }
    while i < 8
        invariant
            i <= 8,
            out@.len() == i,
            le_bytes(x as int, 8) == out@ + le_bytes(cur as int, (8 - i) as nat),
        decreases 8 - i,
    {
        let ghost pre = out@;
        let ghost c0 = cur as int;
        out.push((cur % 256) as u8);
        cur = cur / 256;
        i = i + 1;
        proof {
            lemma_le_bytes_len(c0, (8 - i + 1) as nat);
            lemma_le_bytes_len(c0 / 256, (8 - i) as nat);
            assert(le_bytes(c0, (8 - i + 1) as nat) == seq![(c0 % 256) as u8] + le_bytes(
                c0 / 256,
                (8 - i) as nat,
            ));
            assert(pre + le_bytes(c0, (8 - i + 1) as nat) =~= out@ + le_bytes(
                cur as int,
                (8 - i) as nat,
            ));
        }
    }
    proof {
        assert(le_bytes(cur as int, 0) =~= Seq::<u8>::empty());
        assert(out@ + Seq::<u8>::empty() =~= out@);
    }
    out
}

/// Reads the 8 little-endian bytes at `off`.
pub fn read_le64(b: &Vec<u8>, off: usize) -> (r: u64)
    requires
        off + 8 <= b@.len(),
    ensures
        r == recompose(b@.subrange(off as int, off + 8)),
{
    let ghost s = b@.subrange(off as int, off + 8);
    let blen = b.len();
    let mut x: u64 = 0;
    let mut k: usize = 8;
    proof {
        assert(s.skip(8) =~= Seq::<u8>::empty());
    }
    while k > 0
        invariant
            k <= 8,
            off + 8 <= blen,
            blen == b@.len(),
            s == b@.subrange(off as int, off + 8),
            x == recompose(s.skip(k as int)),
            0 <= recompose(s.skip(k as int)) < pow256((8 - k) as nat),
        decreases k,
    {
        k = k - 1;
        proof {
            assert(s.skip(k as int).drop_first() =~= s.skip(k + 1));
            assert(s.skip(k as int)[0] == s[k as int]);
            assert(s.skip(k as int).len() == 8 - k);
            lemma_recompose_bound(s.skip(k as int));
            lemma_pow256_le((8 - k) as nat, 8);
            assert(pow256(8) == 0x1_0000_0000_0000_0000) by {
                reveal_with_fuel(pow256, 9);
            }
            assert(recompose(s.skip(k as int)) == s[k as int] + 256 * recompose(s.skip(k + 1)));
        }
        x = b[off + k] as u64 + 256 * x;
        proof {
            assert(x == recompose(s.skip(k as int)));
        }
    }
    proof {
        assert(s.skip(0) =~= s);
    }
    x
}

/// The byte standing for one tag position.
pub open spec fn tag_byte(t: Option<TypeTag>) -> u8 {
    match t {
        None => 0,
        Some(TypeTag::I32) => 1,
        Some(TypeTag::I64) => 2,
        Some(TypeTag::F32) => 3,
        Some(TypeTag::F64) => 4,
    }
}

/// The tag position a byte stands for, if any.
pub open spec fn byte_tag(b: u8) -> Option<Option<TypeTag>> {
    if b == 0 {
        Some(None)
    } else if b == 1 {
        Some(Some(TypeTag::I32))
    } else if b == 2 {
        Some(Some(TypeTag::I64))
    } else if b == 3 {
        Some(Some(TypeTag::F32))
    } else if b == 4 {
        Some(Some(TypeTag::F64))
    } else {
        None
    }
}

/// The byte string standing for a tag list.
pub open spec fn tag_bytes(s: Seq<Option<TypeTag>>) -> Seq<u8> {
    s.map_values(|t: Option<TypeTag>| tag_byte(t))
}

/// The tag list a byte string stands for, if every byte is a tag.
pub open spec fn parsed_tags(b: Seq<u8>) -> Option<Seq<Option<TypeTag>>> {
    if forall|i: int| 0 <= i < b.len() ==> #[trigger] byte_tag(b[i]) is Some {
        Some(Seq::new(b.len(), |i: int| byte_tag(b[i])->0))
    } else {
        None
    }
}

/// Writes a tag list as one byte per position.
fn write_tags(out: &mut Vec<u8>, tags: &Vec<Option<TypeTag>>)
    ensures
        final(out)@ == old(out)@ + tag_bytes(tags@),
{
    let mut i: usize = 0;
    while i < tags.len()
        invariant
            i <= tags.len(),
            out@ == old(out)@ + tag_bytes(tags@).take(i as int),
        decreases tags.len() - i,
    {
        let b: u8 = match tags[i] {
            None => 0,
            Some(TypeTag::I32) => 1,
            Some(TypeTag::I64) => 2,
            Some(TypeTag::F32) => 3,
            Some(TypeTag::F64) => 4,
        };
        out.push(b);
        i = i + 1;
        proof {
            assert(out@ =~= old(out)@ + tag_bytes(tags@).take(i as int));
        }
    }
    proof {
        assert(old(out)@ + tag_bytes(tags@).take(tags@.len() as int) =~= old(out)@ + tag_bytes(
            tags@,
        ));
    }
}

/// Reads `n` bytes at `off` as a tag list.
fn read_tags(b: &Vec<u8>, off: usize, n: usize) -> (r: Option<Vec<Option<TypeTag>>>)
    requires
        off + n <= b@.len(),
    ensures
        match r {
            Some(tags) => parsed_tags(b@.subrange(off as int, off + n)) == Some(tags@),
            None => parsed_tags(b@.subrange(off as int, off + n)) is None,
        },
{
    let ghost s = b@.subrange(off as int, off + n);
    let blen = b.len();
    let mut tags: Vec<Option<TypeTag>> = Vec::new();
    let mut i: usize = 0;
    while i < n
        invariant
            i <= n,
            off + n <= blen,
            blen == b@.len(),
            s == b@.subrange(off as int, off + n),
            tags@.len() == i,
            forall|j: int| 0 <= j < i ==> #[trigger] byte_tag(s[j]) == Some(tags@[j]),
        decreases n - i,
    {
        let byte = b[off + i];
        let t: Option<TypeTag> = if byte == 0 {
            None
        } else if byte == 1 {
            Some(TypeTag::I32)
        } else if byte == 2 {
            Some(TypeTag::I64)
        } else if byte == 3 {
            Some(TypeTag::F32)
        } else if byte == 4 {
            Some(TypeTag::F64)
        } else {
            proof {
                assert(s[i as int] == b@[off + i]);
                assert(byte_tag(s[i as int]) is None);
            }
            return None;
        };
        tags.push(t);
        i = i + 1;
    }
    proof {
        let parsed = Seq::new(s.len(), |j: int| byte_tag(s[j])->0);
        assert(tags@ =~= parsed);
    }
    Some(tags)
}

/// Appends a byte slice.
fn append_bytes(out: &mut Vec<u8>, src: &[u8])
    ensures
        final(out)@ == old(out)@ + src@,
{
    let mut i: usize = 0;
    while i < src.len()
        invariant
            i <= src@.len(),
            out@ == old(out)@ + src@.take(i as int),
        decreases src@.len() - i,
    {
        out.push(src[i]);
        i = i + 1;
        proof {
            assert(out@ =~= old(out)@ + src@.take(i as int));
        }
    }
    proof {
        assert(old(out)@ + src@.take(src@.len() as int) =~= old(out)@ + src@);
    }
}

/// Copies the bytes of `b` between `from` and `to`.
fn copy_range(b: &Vec<u8>, from: usize, to: usize) -> (r: Vec<u8>)
    requires
        from <= to <= b@.len(),
    ensures
        r@ == b@.subrange(from as int, to as int),
{
    let mut r: Vec<u8> = Vec::new();
    let mut i: usize = from;
    while i < to
        invariant
            from <= i <= to <= b@.len(),
            r@ == b@.subrange(from as int, i as int),
        decreases to - i,
    {
        r.push(b[i]);
        i = i + 1;
        proof {
            assert(r@ =~= b@.subrange(from as int, i as int));
        }
    }
    r
}

/// Relies on `String::from_utf8`: bytes that are valid UTF-8 decode to
/// exactly the character sequence they encode; any other bytes are rejected.
#[verifier::external_body]
fn string_from_utf8(v: Vec<u8>) -> (r: Option<String>)
    ensures
        match r {
            Some(s) => valid_utf8(v@) && s@ == decode_utf8(v@),
            None => !valid_utf8(v@),
        },
{
    String::from_utf8(v).ok()
}

/// The stored byte string of a record.
pub open spec fn encoded(m: ModuleView) -> Seq<u8> {
    let name = encode_utf8(m.metadata.function_name);
    le_bytes(m.wasm.len() as int, 8) + m.wasm + le_bytes(name.len() as int, 8) + name + le_bytes(
        m.metadata.return_type.len() as int,
        8,
    ) + tag_bytes(m.metadata.return_type) + le_bytes(m.metadata.args.len() as int, 8) + tag_bytes(
        m.metadata.args,
    )
}

/// Encodes a record into its stored byte string.
pub fn encode(m: &WasmModule) -> (r: Vec<u8>)
    ensures
        r@ == encoded(m@),
{
    let mut out = le64_of(m.wasm.len() as u64);
    append_bytes(&mut out, m.wasm.as_slice());
    let name_bytes = m.metadata.function_name.as_str().as_bytes();
    let mut len_part = le64_of(name_bytes.len() as u64);
    append_bytes(&mut len_part, name_bytes);
    let mut out2 = out;
    append_bytes(&mut out2, len_part.as_slice());
    let mut rt_part = le64_of(m.metadata.return_type.len() as u64);
    write_tags(&mut rt_part, &m.metadata.return_type);
    append_bytes(&mut out2, rt_part.as_slice());
    let mut args_part = le64_of(m.metadata.args.len() as u64);
    write_tags(&mut args_part, &m.metadata.args);
    append_bytes(&mut out2, args_part.as_slice());
    proof {
        lemma_le_bytes_len(m.wasm@.len() as int, 8);
        lemma_le_bytes_len(encode_utf8(m.metadata.function_name@).len() as int, 8);
        lemma_le_bytes_len(m.metadata.return_type@.len() as int, 8);
        lemma_le_bytes_len(m.metadata.args@.len() as int, 8);
        assert(out2@ =~= encoded(m@));
    }
    out2
}

/// The record a stored byte string stands for, if it parses.
pub open spec fn decoded(b: Seq<u8>) -> Option<ModuleView> {
    if b.len() < 8 {
        None
    } else {
        let wl = recompose(b.subrange(0, 8));
        if 8 + wl > b.len() {
            None
        } else {
            let wasm = b.subrange(8, 8 + wl);
            let o1 = 8 + wl;
            if o1 + 8 > b.len() {
                None
            } else {
                let nl = recompose(b.subrange(o1, o1 + 8));
                if o1 + 8 + nl > b.len() {
                    None
                } else {
                    let name_bytes = b.subrange(o1 + 8, o1 + 8 + nl);
                    let o2 = o1 + 8 + nl;
                    if !valid_utf8(name_bytes) {
                        None
                    } else if o2 + 8 > b.len() {
                        None
                    } else {
                        let rl = recompose(b.subrange(o2, o2 + 8));
                        if o2 + 8 + rl > b.len() {
                            None
                        } else {
                            let rt = parsed_tags(b.subrange(o2 + 8, o2 + 8 + rl));
                            let o3 = o2 + 8 + rl;
                            if rt is None {
                                None
                            } else if o3 + 8 > b.len() {
                                None
                            } else {
                                let al = recompose(b.subrange(o3, o3 + 8));
                                if o3 + 8 + al != b.len() {
                                    None
                                } else {
                                    let args = parsed_tags(b.subrange(o3 + 8, o3 + 8 + al));
                                    if args is None {
                                        None
                                    } else {
                                        Some(ModuleView {
                                            wasm,
                                            metadata: MetadataView {
                                                function_name: decode_utf8(name_bytes),
                                                return_type: rt->0,
                                                args: args->0,
                                            },
                                        })
                                    }
                                }
                            }
                        }
                    }
                }
            }
        }
    }
}

/// Reads one length prefix at `off` and checks that `off + 8 + len` stays
/// within the buffer; gives the length back as a `usize`.
fn read_len(b: &Vec<u8>, off: usize) -> (r: Option<usize>)
    requires
        off + 8 <= b@.len(),
    ensures
        match r {
            Some(n) => off + 8 + n <= b@.len() && n == recompose(b@.subrange(off as int, off + 8)),
            None => off + 8 + recompose(b@.subrange(off as int, off + 8)) > b@.len(),
        },
{
    let n = read_le64(b, off);
    let room = (b.len() - off - 8) as u64;
    if n > room {
        return None;
    }
    Some(n as usize)
}

/// Decodes a stored byte string back into a record.
pub fn decode(b: &Vec<u8>) -> (r: Option<WasmModule>)
    ensures
        match r {
            Some(rec) => decoded(b@) == Some(rec@),
            None => decoded(b@) is None,
        },
{
    if b.len() < 8 {
        return None;
    }
    let wl = match read_len(b, 0) {
        Some(n) => n,
        None => {
            return None;
        },
    };
    let wasm = copy_range(b, 8, 8 + wl);
    let o1 = 8 + wl;
    if b.len() - o1 < 8 {
        return None;
    }
    let nl = match read_len(b, o1) {
        Some(n) => n,
        None => {
            return None;
        },
    };
    let name_bytes = copy_range(b, o1 + 8, o1 + 8 + nl);
    let o2 = o1 + 8 + nl;
    let name = match string_from_utf8(name_bytes) {
        Some(s) => s,
        None => {
            return None;
        },
    };
    if b.len() - o2 < 8 {
        return None;
    }
    let rl = match read_len(b, o2) {
        Some(n) => n,
        None => {
            return None;
        },
    };
    let rt = match read_tags(b, o2 + 8, rl) {
        Some(t) => t,
        None => {
            return None;
        },
    };
    let o3 = o2 + 8 + rl;
    if b.len() - o3 < 8 {
        return None;
    }
    let al = match read_len(b, o3) {
        Some(n) => n,
        None => {
            return None;
        },
    };
    if o3 + 8 + al != b.len() {
        return None;
    }
    let args = match read_tags(b, o3 + 8, al) {
        Some(t) => t,
        None => {
            return None;
        },
    };
    let rec = WasmModule::new(wasm, WasmMetadata::new(name, rt, args));
    Some(rec)
}

/// Round trip of the stored representation: decoding an encoded record gives
/// the record back.  The bounds say only that each component's length fits
/// the 8-byte prefix, which holds of every in-memory record.
pub proof fn lemma_codec_roundtrip(m: ModuleView)
    requires
        m.wasm.len() < pow256(8),
        encode_utf8(m.metadata.function_name).len() < pow256(8),
        m.metadata.return_type.len() < pow256(8),
        m.metadata.args.len() < pow256(8),
    ensures
        decoded(encoded(m)) == Some(m),
{
    broadcast use encode_utf8_valid_utf8, encode_utf8_decode_utf8;

    let name = encode_utf8(m.metadata.function_name);
    let b = encoded(m);
    lemma_le_bytes_len(m.wasm.len() as int, 8);
    lemma_le_bytes_len(name.len() as int, 8);
    lemma_le_bytes_len(m.metadata.return_type.len() as int, 8);
    lemma_le_bytes_len(m.metadata.args.len() as int, 8);
    let wl = m.wasm.len() as int;
    let nl = name.len() as int;
    let rl = m.metadata.return_type.len() as int;
    let al = m.metadata.args.len() as int;
    assert(b.len() == 8 + wl + 8 + nl + 8 + rl + 8 + al);
    assert(b.subrange(0, 8) =~= le_bytes(wl, 8));
    lemma_recompose_le_bytes(wl, 8);
    assert(b.subrange(8, 8 + wl) =~= m.wasm);
    let o1 = 8 + wl;
    assert(b.subrange(o1, o1 + 8) =~= le_bytes(nl, 8));
    lemma_recompose_le_bytes(nl, 8);
    assert(b.subrange(o1 + 8, o1 + 8 + nl) =~= name);
    let o2 = o1 + 8 + nl;
    assert(b.subrange(o2, o2 + 8) =~= le_bytes(rl, 8));
    lemma_recompose_le_bytes(rl, 8);
    assert(b.subrange(o2 + 8, o2 + 8 + rl) =~= tag_bytes(m.metadata.return_type));
    let o3 = o2 + 8 + rl;
    assert(b.subrange(o3, o3 + 8) =~= le_bytes(al, 8));
    lemma_recompose_le_bytes(al, 8);
    assert(b.subrange(o3 + 8, o3 + 8 + al) =~= tag_bytes(m.metadata.args));
    lemma_parsed_tag_bytes(m.metadata.return_type);
    lemma_parsed_tag_bytes(m.metadata.args);
}

/// Parsing the byte string of a tag list gives the list back.
pub proof fn lemma_parsed_tag_bytes(s: Seq<Option<TypeTag>>)
    ensures
        parsed_tags(tag_bytes(s)) == Some(s),
{
    let b = tag_bytes(s);
    assert(forall|i: int| 0 <= i < b.len() ==> #[trigger] byte_tag(b[i]) == Some(s[i]));
    assert(Seq::new(b.len(), |i: int| byte_tag(b[i])->0) =~= s);
}

} // verus!
