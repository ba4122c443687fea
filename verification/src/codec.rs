//! Persistence of indexer job state.
//!
//! At every step boundary the runtime persists a job's counters and its
//! remaining steps as one byte string, and restores them on resume. The
//! encoding is fixed: little-endian integers, signed values offset into
//! unsigned range, characters as 32-bit code points, strings and lists
//! length-prefixed. Decoding inverts encoding exactly, so a resumed run
//! continues from precisely the persisted state.

use vstd::prelude::*;
use vstd::bytes::spec_u32_to_le_bytes;
use vstd::bytes::spec_u32_from_le_bytes;
use vstd::bytes::spec_u64_to_le_bytes;
use vstd::bytes::spec_u64_from_le_bytes;
use vstd::bytes::lemma_auto_spec_u32_to_from_le_bytes;
use vstd::bytes::lemma_auto_spec_u64_to_from_le_bytes;
use crate::indexer::IndexerJobData;
use crate::indexer::IndexerJobStep;
use crate::indexer::IndexerJobStepEntry;

verus! {

/// The mathematical content of one persisted step entry.
pub open spec fn entry_view(e: IndexerJobStepEntry) -> (
    Seq<char>,
    Seq<char>,
    bool,
    i32,
    i64,
    i32,
    Option<i32>,
) {
    (
        e.full_path@,
        e.materialized_path@,
        e.materialized_path.is_dir,
        e.materialized_path.location_id,
        e.created_at,
        e.file_id,
        e.parent_id,
    )
}

/// The mathematical content of one persisted step.
pub open spec fn step_view(s: IndexerJobStep) -> Seq<
    (Seq<char>, Seq<char>, bool, i32, i64, i32, Option<i32>),
> {
    s.entries@.map_values(|e: IndexerJobStepEntry| entry_view(e))
}

/// The mathematical content of the persisted step list.
pub open spec fn steps_view(steps: Seq<IndexerJobStep>) -> Seq<
    Seq<(Seq<char>, Seq<char>, bool, i32, i64, i32, Option<i32>)>,
> {
    steps.map_values(|s: IndexerJobStep| step_view(s))
}

/// A signed value shifted into unsigned range, so that its bytes sort and
/// store uniformly.
pub open spec fn i64_as_u64(x: i64) -> u64 {
    ((x as int) + 0x8000000000000000) as u64
}

pub open spec fn u64_as_i64(w: u64) -> i64 {
    ((w as int) - 0x8000000000000000) as i64
}

pub open spec fn enc_u64(x: u64) -> Seq<u8> {
    spec_u64_to_le_bytes(x)
}

pub open spec fn enc_u32(x: u32) -> Seq<u8> {
    spec_u32_to_le_bytes(x)
}

pub open spec fn enc_i64(x: i64) -> Seq<u8> {
    enc_u64(i64_as_u64(x))
}

pub open spec fn enc_i32(x: i32) -> Seq<u8> {
    enc_i64(x as i64)
}

pub open spec fn enc_bool(b: bool) -> Seq<u8> {
    seq![if b { 1u8 } else { 0u8 }]
}

pub open spec fn enc_chars(s: Seq<char>) -> Seq<u8>
    decreases s.len(),
{
    if s.len() == 0 {
        Seq::empty()
    } else {
        enc_u32(s[0] as u32) + enc_chars(s.skip(1))
    }
}

pub open spec fn enc_str(s: Seq<char>) -> Seq<u8> {
    enc_u64(s.len() as u64) + enc_chars(s)
}

pub open spec fn enc_opt_i32(x: Option<i32>) -> Seq<u8> {
    match x {
        Some(v) => seq![1u8] + enc_i32(v),
        None => seq![0u8],
    }
}

pub open spec fn enc_entry(e: (Seq<char>, Seq<char>, bool, i32, i64, i32, Option<i32>)) -> Seq<
    u8,
> {
    enc_str(e.0) + enc_str(e.1) + enc_bool(e.2) + enc_i32(e.3) + enc_i64(e.4) + enc_i32(e.5)
        + enc_opt_i32(e.6)
}

pub open spec fn enc_entries(
    es: Seq<(Seq<char>, Seq<char>, bool, i32, i64, i32, Option<i32>)>,
) -> Seq<u8>
    decreases es.len(),
{
    if es.len() == 0 {
        Seq::empty()
    } else {
        enc_entry(es[0]) + enc_entries(es.skip(1))
    }
}

pub open spec fn enc_step(
    s: Seq<(Seq<char>, Seq<char>, bool, i32, i64, i32, Option<i32>)>,
) -> Seq<u8> {
    enc_u64(s.len() as u64) + enc_entries(s)
}

pub open spec fn enc_steps(
    ss: Seq<Seq<(Seq<char>, Seq<char>, bool, i32, i64, i32, Option<i32>)>>,
) -> Seq<u8>
    decreases ss.len(),
{
    if ss.len() == 0 {
        Seq::empty()
    } else {
        enc_step(ss[0]) + enc_steps(ss.skip(1))
    }
}

pub open spec fn enc_data(d: IndexerJobData) -> Seq<u8> {
    enc_i64(d.db_write_start) + enc_u64(d.scan_read_time) + enc_u64(d.total_paths) + enc_u64(
        d.indexed_paths,
    )
}

/// The persisted form of a job's counters and remaining steps.
pub open spec fn enc_state(
    d: IndexerJobData,
    ss: Seq<Seq<(Seq<char>, Seq<char>, bool, i32, i64, i32, Option<i32>)>>,
) -> Seq<u8> {
    enc_data(d) + enc_u64(ss.len() as u64) + enc_steps(ss)
}

// ---- Decoding, consuming from the front ----

pub open spec fn dec_u64(b: Seq<u8>) -> Option<(u64, Seq<u8>)> {
    if b.len() >= 8 {
        Some((spec_u64_from_le_bytes(b.take(8)), b.skip(8)))
    } else {
        None
    }
}

pub open spec fn dec_u32(b: Seq<u8>) -> Option<(u32, Seq<u8>)> {
    if b.len() >= 4 {
        Some((spec_u32_from_le_bytes(b.take(4)), b.skip(4)))
    } else {
        None
    }
}

pub open spec fn dec_i64(b: Seq<u8>) -> Option<(i64, Seq<u8>)> {
    match dec_u64(b) {
        Some((w, rest)) => Some((u64_as_i64(w), rest)),
        None => None,
    }
}

pub open spec fn dec_i32(b: Seq<u8>) -> Option<(i32, Seq<u8>)> {
    match dec_i64(b) {
        Some((x, rest)) => if i32::MIN <= x <= i32::MAX {
            Some((x as i32, rest))
        } else {
            None
        },
        None => None,
    }
}

pub open spec fn dec_bool(b: Seq<u8>) -> Option<(bool, Seq<u8>)> {
    if b.len() >= 1 && (b[0] == 0u8 || b[0] == 1u8) {
        Some((b[0] == 1u8, b.skip(1)))
    } else {
        None
    }
}

/// A value a character can take.
pub open spec fn valid_code_point(w: u32) -> bool {
    w < 0xD800 || (0xE000 <= w <= 0x10FFFF)
}

/// The character with a given value.
pub open spec fn char_of_u32(w: u32) -> char {
    w as char
}

pub open spec fn dec_char(b: Seq<u8>) -> Option<(char, Seq<u8>)> {
    match dec_u32(b) {
        Some((w, rest)) => if valid_code_point(w) {
            Some((char_of_u32(w), rest))
        } else {
            None
        },
        None => None,
    }
}

pub open spec fn dec_chars(b: Seq<u8>, n: nat) -> Option<(Seq<char>, Seq<u8>)>
    decreases n,
{
    if n == 0 {
        Some((Seq::empty(), b))
    } else {
        match dec_char(b) {
            Some((c, rest)) => match dec_chars(rest, (n - 1) as nat) {
                Some((s, rest2)) => Some((seq![c] + s, rest2)),
                None => None,
            },
            None => None,
        }
    }
}

pub open spec fn dec_str(b: Seq<u8>) -> Option<(Seq<char>, Seq<u8>)> {
    match dec_u64(b) {
        Some((n, rest)) => dec_chars(rest, n as nat),
        None => None,
    }
}

pub open spec fn dec_opt_i32(b: Seq<u8>) -> Option<(Option<i32>, Seq<u8>)> {
    if b.len() >= 1 && b[0] == 0u8 {
        Some((None, b.skip(1)))
    } else if b.len() >= 1 && b[0] == 1u8 {
        match dec_i32(b.skip(1)) {
            Some((v, rest)) => Some((Some(v), rest)),
            None => None,
        }
    } else {
        None
    }
}

pub open spec fn dec_entry(b: Seq<u8>) -> Option<
    ((Seq<char>, Seq<char>, bool, i32, i64, i32, Option<i32>), Seq<u8>),
> {
    match dec_str(b) {
        Some((full, b1)) => match dec_str(b1) {
            Some((mp, b2)) => match dec_bool(b2) {
                Some((is_dir, b3)) => match dec_i32(b3) {
                    Some((loc, b4)) => match dec_i64(b4) {
                        Some((created, b5)) => match dec_i32(b5) {
                            Some((fid, b6)) => match dec_opt_i32(b6) {
                                Some((parent, b7)) => Some(
                                    ((full, mp, is_dir, loc, created, fid, parent), b7),
                                ),
                                None => None,
                            },
                            None => None,
                        },
                        None => None,
                    },
                    None => None,
                },
                None => None,
            },
            None => None,
        },
        None => None,
    }
}

pub open spec fn dec_entries(b: Seq<u8>, n: nat) -> Option<
    (Seq<(Seq<char>, Seq<char>, bool, i32, i64, i32, Option<i32>)>, Seq<u8>),
>
    decreases n,
{
    if n == 0 {
        Some((Seq::empty(), b))
    } else {
        match dec_entry(b) {
            Some((e, rest)) => match dec_entries(rest, (n - 1) as nat) {
                Some((es, rest2)) => Some((seq![e] + es, rest2)),
                None => None,
            },
            None => None,
        }
    }
}

pub open spec fn dec_step(b: Seq<u8>) -> Option<
    (Seq<(Seq<char>, Seq<char>, bool, i32, i64, i32, Option<i32>)>, Seq<u8>),
> {
    match dec_u64(b) {
        Some((n, rest)) => dec_entries(rest, n as nat),
        None => None,
    }
}

pub open spec fn dec_steps(b: Seq<u8>, n: nat) -> Option<
    (Seq<Seq<(Seq<char>, Seq<char>, bool, i32, i64, i32, Option<i32>)>>, Seq<u8>),
>
    decreases n,
{
    if n == 0 {
        Some((Seq::empty(), b))
    } else {
        match dec_step(b) {
            Some((s, rest)) => match dec_steps(rest, (n - 1) as nat) {
                Some((ss, rest2)) => Some((seq![s] + ss, rest2)),
                None => None,
            },
            None => None,
        }
    }
}

pub open spec fn dec_data(b: Seq<u8>) -> Option<(IndexerJobData, Seq<u8>)> {
    match dec_i64(b) {
        Some((dws, b1)) => match dec_u64(b1) {
            Some((srt, b2)) => match dec_u64(b2) {
                Some((total, b3)) => match dec_u64(b3) {
                    Some((indexed, b4)) => Some(
                        (
                            IndexerJobData {
                                db_write_start: dws,
                                scan_read_time: srt,
                                total_paths: total,
                                indexed_paths: indexed,
                            },
                            b4,
                        ),
                    ),
                    None => None,
                },
                None => None,
            },
            None => None,
        },
        None => None,
    }
}

pub open spec fn dec_state(b: Seq<u8>) -> Option<
    (
        IndexerJobData,
        Seq<Seq<(Seq<char>, Seq<char>, bool, i32, i64, i32, Option<i32>)>>,
        Seq<u8>,
    ),
> {
    match dec_data(b) {
        Some((d, b1)) => match dec_u64(b1) {
            Some((n, b2)) => match dec_steps(b2, n as nat) {
                Some((ss, b3)) => Some((d, ss, b3)),
                None => None,
            },
            None => None,
        },
        None => None,
    }
}

// ---- Round trip: decoding inverts encoding ----

pub proof fn lemma_dec_enc_u64(x: u64, rest: Seq<u8>)
    ensures
        dec_u64(enc_u64(x) + rest) == Some((x, rest)),
{
    lemma_auto_spec_u64_to_from_le_bytes();
    assert((enc_u64(x) + rest).take(8) =~= enc_u64(x));
    assert((enc_u64(x) + rest).skip(8) =~= rest);
}

pub proof fn lemma_dec_enc_u32(x: u32, rest: Seq<u8>)
    ensures
        dec_u32(enc_u32(x) + rest) == Some((x, rest)),
{
    lemma_auto_spec_u32_to_from_le_bytes();
    assert((enc_u32(x) + rest).take(4) =~= enc_u32(x));
    assert((enc_u32(x) + rest).skip(4) =~= rest);
}

pub proof fn lemma_dec_enc_i64(x: i64, rest: Seq<u8>)
    ensures
        dec_i64(enc_i64(x) + rest) == Some((x, rest)),
{
    lemma_dec_enc_u64(i64_as_u64(x), rest);
}

pub proof fn lemma_dec_enc_i32(x: i32, rest: Seq<u8>)
    ensures
        dec_i32(enc_i32(x) + rest) == Some((x, rest)),
{
    lemma_dec_enc_i64(x as i64, rest);
}

pub proof fn lemma_dec_enc_bool(x: bool, rest: Seq<u8>)
    ensures
        dec_bool(enc_bool(x) + rest) == Some((x, rest)),
{
    assert((enc_bool(x) + rest)[0] == if x {
        1u8
    } else {
        0u8
    });
    assert((enc_bool(x) + rest).skip(1) =~= rest);
}

pub proof fn lemma_dec_enc_char(c: char, rest: Seq<u8>)
    ensures
        dec_char(enc_u32(c as u32) + rest) == Some((c, rest)),
{
    lemma_dec_enc_u32(c as u32, rest);
    assert(valid_code_point(c as u32));
    let c2 = char_of_u32(c as u32);
    assert(c as u32 == c as u32);
    assert(c2 as u32 == c as u32);
    assert(c2 == c);
}

pub proof fn lemma_dec_enc_chars(s: Seq<char>, rest: Seq<u8>)
    ensures
        dec_chars(enc_chars(s) + rest, s.len()) == Some((s, rest)),
    decreases s.len(),
{
    if s.len() == 0 {
        assert(enc_chars(s) + rest =~= rest);
        assert(dec_chars(rest, 0) == Some((Seq::<char>::empty(), rest)));
        assert(s =~= Seq::<char>::empty());
    } else {
        let tail = s.skip(1);
        lemma_dec_enc_chars(tail, rest);
        assert(enc_chars(s) + rest =~= enc_u32(s[0] as u32) + (enc_chars(tail) + rest));
        lemma_dec_enc_char(s[0], enc_chars(tail) + rest);
        assert(seq![s[0]] + tail =~= s);
    }
}

pub proof fn lemma_dec_enc_str(s: Seq<char>, rest: Seq<u8>)
    requires
        s.len() <= u64::MAX,
    ensures
        dec_str(enc_str(s) + rest) == Some((s, rest)),
{
    assert(enc_str(s) + rest =~= enc_u64(s.len() as u64) + (enc_chars(s) + rest));
    lemma_dec_enc_u64(s.len() as u64, enc_chars(s) + rest);
    lemma_dec_enc_chars(s, rest);
}

pub proof fn lemma_dec_enc_opt_i32(x: Option<i32>, rest: Seq<u8>)
    ensures
        dec_opt_i32(enc_opt_i32(x) + rest) == Some((x, rest)),
{
    match x {
        Some(v) => {
            assert(enc_opt_i32(x) + rest =~= seq![1u8] + (enc_i32(v) + rest));
            assert((enc_opt_i32(x) + rest)[0] == 1u8);
            assert((enc_opt_i32(x) + rest).skip(1) =~= enc_i32(v) + rest);
            lemma_dec_enc_i32(v, rest);
        },
        None => {
            assert((enc_opt_i32(x) + rest)[0] == 0u8);
            assert((enc_opt_i32(x) + rest).skip(1) =~= rest);
        },
    }
}

/// An entry's fields always hold character counts a u64 can carry.
pub open spec fn entry_bounded(e: (Seq<char>, Seq<char>, bool, i32, i64, i32, Option<i32>)) -> bool {
    e.0.len() <= u64::MAX && e.1.len() <= u64::MAX
}

pub proof fn lemma_dec_enc_entry(
    e: (Seq<char>, Seq<char>, bool, i32, i64, i32, Option<i32>),
    rest: Seq<u8>,
)
    requires
        entry_bounded(e),
    ensures
        dec_entry(enc_entry(e) + rest) == Some((e, rest)),
{
    let b6 = enc_opt_i32(e.6) + rest;
    let b5 = enc_i32(e.5) + b6;
    let b4 = enc_i64(e.4) + b5;
    let b3 = enc_i32(e.3) + b4;
    let b2 = enc_bool(e.2) + b3;
    let b1 = enc_str(e.1) + b2;
    assert(enc_entry(e) + rest =~= enc_str(e.0) + b1);
    lemma_dec_enc_str(e.0, b1);
    assert(b1 =~= enc_str(e.1) + b2);
    lemma_dec_enc_str(e.1, b2);
    lemma_dec_enc_bool(e.2, b3);
    lemma_dec_enc_i32(e.3, b4);
    lemma_dec_enc_i64(e.4, b5);
    lemma_dec_enc_i32(e.5, b6);
    lemma_dec_enc_opt_i32(e.6, rest);
    assert((e.0, e.1, e.2, e.3, e.4, e.5, e.6) == e);
}

pub open spec fn entries_bounded(
    es: Seq<(Seq<char>, Seq<char>, bool, i32, i64, i32, Option<i32>)>,
) -> bool {
    forall|i: int| 0 <= i < es.len() ==> entry_bounded(#[trigger] es[i])
}

pub proof fn lemma_dec_enc_entries(
    es: Seq<(Seq<char>, Seq<char>, bool, i32, i64, i32, Option<i32>)>,
    rest: Seq<u8>,
)
    requires
        entries_bounded(es),
    ensures
        dec_entries(enc_entries(es) + rest, es.len()) == Some((es, rest)),
    decreases es.len(),
{
    if es.len() == 0 {
        assert(enc_entries(es) + rest =~= rest);
        assert(es =~= Seq::<(Seq<char>, Seq<char>, bool, i32, i64, i32, Option<i32>)>::empty());
    } else {
        let tail = es.skip(1);
        assert(entries_bounded(tail)) by {
            assert forall|i: int| 0 <= i < tail.len() implies entry_bounded(
                #[trigger] tail[i],
            ) by {
                assert(tail[i] == es[i + 1]);
            }
        }
        lemma_dec_enc_entries(tail, rest);
        assert(enc_entries(es) + rest =~= enc_entry(es[0]) + (enc_entries(tail) + rest));
        assert(entry_bounded(es[0]));
        lemma_dec_enc_entry(es[0], enc_entries(tail) + rest);
        assert(seq![es[0]] + tail =~= es);
    }
}

pub open spec fn steps_bounded(
    ss: Seq<Seq<(Seq<char>, Seq<char>, bool, i32, i64, i32, Option<i32>)>>,
) -> bool {
    &&& ss.len() <= u64::MAX
    &&& forall|i: int|
        0 <= i < ss.len() ==> (#[trigger] ss[i]).len() <= u64::MAX && entries_bounded(ss[i])
}

pub proof fn lemma_dec_enc_step(
    s: Seq<(Seq<char>, Seq<char>, bool, i32, i64, i32, Option<i32>)>,
    rest: Seq<u8>,
)
    requires
        s.len() <= u64::MAX,
        entries_bounded(s),
    ensures
        dec_step(enc_step(s) + rest) == Some((s, rest)),
{
    assert(enc_step(s) + rest =~= enc_u64(s.len() as u64) + (enc_entries(s) + rest));
    lemma_dec_enc_u64(s.len() as u64, enc_entries(s) + rest);
    lemma_dec_enc_entries(s, rest);
}

pub proof fn lemma_dec_enc_steps(
    ss: Seq<Seq<(Seq<char>, Seq<char>, bool, i32, i64, i32, Option<i32>)>>,
    rest: Seq<u8>,
)
    requires
        steps_bounded(ss),
    ensures
        dec_steps(enc_steps(ss) + rest, ss.len()) == Some((ss, rest)),
    decreases ss.len(),
{
    if ss.len() == 0 {
        assert(enc_steps(ss) + rest =~= rest);
        assert(ss =~= Seq::<
            Seq<(Seq<char>, Seq<char>, bool, i32, i64, i32, Option<i32>)>,
        >::empty());
    } else {
        let tail = ss.skip(1);
        assert(steps_bounded(tail)) by {
            assert forall|i: int|
                0 <= i < tail.len() implies (#[trigger] tail[i]).len() <= u64::MAX
                && entries_bounded(tail[i]) by {
                assert(tail[i] == ss[i + 1]);
            }
        }
        lemma_dec_enc_steps(tail, rest);
        assert(enc_steps(ss) + rest =~= enc_step(ss[0]) + (enc_steps(tail) + rest));
        lemma_dec_enc_step(ss[0], enc_steps(tail) + rest);
        assert(seq![ss[0]] + tail =~= ss);
    }
}

pub proof fn lemma_dec_enc_data(d: IndexerJobData, rest: Seq<u8>)
    ensures
        dec_data(enc_data(d) + rest) == Some((d, rest)),
{
    let b3 = enc_u64(d.indexed_paths) + rest;
    let b2 = enc_u64(d.total_paths) + b3;
    let b1 = enc_u64(d.scan_read_time) + b2;
    assert(enc_data(d) + rest =~= enc_i64(d.db_write_start) + b1);
    lemma_dec_enc_i64(d.db_write_start, b1);
    assert(b1 =~= enc_u64(d.scan_read_time) + b2);
    lemma_dec_enc_u64(d.scan_read_time, b2);
    lemma_dec_enc_u64(d.total_paths, b3);
    lemma_dec_enc_u64(d.indexed_paths, rest);
}

/// Round trip: whatever job state is serialized, deserializing restores
/// exactly the same counters and the same remaining steps, so resuming
/// executes precisely the work that was persisted.
pub proof fn lemma_state_roundtrip(
    d: IndexerJobData,
    ss: Seq<Seq<(Seq<char>, Seq<char>, bool, i32, i64, i32, Option<i32>)>>,
)
    requires
        steps_bounded(ss),
    ensures
        dec_state(enc_state(d, ss)) == Some((d, ss, Seq::<u8>::empty())),
{
    let rest0 = Seq::<u8>::empty();
    assert(enc_state(d, ss) =~= enc_data(d) + (enc_u64(ss.len() as u64) + (enc_steps(ss)
        + rest0)));
    lemma_dec_enc_data(d, enc_u64(ss.len() as u64) + (enc_steps(ss) + rest0));
    lemma_dec_enc_u64(ss.len() as u64, enc_steps(ss) + rest0);
    lemma_dec_enc_steps(ss, rest0);
}

// ---- Executable encoding ----

fn emit_u64(out: &mut Vec<u8>, x: u64)
    ensures
        final(out)@ == old(out)@ + enc_u64(x),
{
    let mut bs = vstd::bytes::u64_to_le_bytes(x);
    out.append(&mut bs);
}

fn emit_u32(out: &mut Vec<u8>, x: u32)
    ensures
        final(out)@ == old(out)@ + enc_u32(x),
{
    let mut bs = vstd::bytes::u32_to_le_bytes(x);
    out.append(&mut bs);
}

fn emit_i64(out: &mut Vec<u8>, x: i64)
    ensures
        final(out)@ == old(out)@ + enc_i64(x),
{
    let w = ((x as i128) + 0x8000000000000000i128) as u64;
    proof {
        assert(w == i64_as_u64(x));
    }
    emit_u64(out, w);
}

fn emit_i32(out: &mut Vec<u8>, x: i32)
    ensures
        final(out)@ == old(out)@ + enc_i32(x),
{
    emit_i64(out, x as i64);
}

fn emit_bool(out: &mut Vec<u8>, b: bool)
    ensures
        final(out)@ == old(out)@ + enc_bool(b),
{
    let ghost pre = out@;
    if b {
        out.push(1u8);
    } else {
        out.push(0u8);
    }
    proof {
        assert(out@ =~= pre + enc_bool(b));
    }
}

/// Appending one character extends the character encoding at its end.
proof fn lemma_enc_chars_snoc(s: Seq<char>, c: char)
    ensures
        enc_chars(s.push(c)) == enc_chars(s) + enc_u32(c as u32),
    decreases s.len(),
{
    let p = s.push(c);
    if s.len() == 0 {
        assert(p[0] == c);
        assert(p.skip(1) =~= Seq::<char>::empty());
        assert(enc_chars(p.skip(1)) == Seq::<u8>::empty());
        assert(enc_chars(p) == enc_u32(c as u32) + enc_chars(p.skip(1)));
        assert(enc_chars(s) == Seq::<u8>::empty());
        assert(enc_chars(p) =~= enc_chars(s) + enc_u32(c as u32));
    } else {
        assert(p[0] == s[0]);
        assert(p.skip(1) =~= s.skip(1).push(c));
        lemma_enc_chars_snoc(s.skip(1), c);
        assert(enc_chars(p) == enc_u32(s[0] as u32) + enc_chars(s.skip(1).push(c)));
        assert(enc_chars(s.skip(1).push(c)) == enc_chars(s.skip(1)) + enc_u32(c as u32));
        assert(enc_chars(s) == enc_u32(s[0] as u32) + enc_chars(s.skip(1)));
        assert(enc_chars(p) =~= enc_chars(s) + enc_u32(c as u32));
    }
}

fn emit_str(out: &mut Vec<u8>, s: &str)
    ensures
        final(out)@ == old(out)@ + enc_str(s@),
{
    let n = s.unicode_len();
    emit_u64(out, n as u64);
    let ghost base = out@;
    let mut i: usize = 0;
    proof {
        assert(s@.take(0) =~= Seq::<char>::empty());
        assert(out@ =~= base + enc_chars(s@.take(0)));
    }
    while i < n
        invariant
            i <= n,
            n == s@.len(),
            out@ == base + enc_chars(s@.take(i as int)),
        decreases n - i,
    {
        let c = s.get_char(i);
        emit_u32(out, c as u32);
        proof {
            assert(s@.take(i + 1) =~= s@.take(i as int).push(s@[i as int]));
            lemma_enc_chars_snoc(s@.take(i as int), s@[i as int]);
            assert(out@ =~= base + enc_chars(s@.take(i + 1)));
        }
        i += 1;
    }
    proof {
        assert(s@.take(n as int) =~= s@);
        assert(out@ =~= old(out)@ + enc_str(s@));
    }
}

fn emit_opt_i32(out: &mut Vec<u8>, x: Option<i32>)
    ensures
        final(out)@ == old(out)@ + enc_opt_i32(x),
{
    let ghost pre = out@;
    match x {
        Some(v) => {
            out.push(1u8);
            proof {
                assert(out@ =~= pre + seq![1u8]);
            }
            emit_i32(out, v);
            proof {
                assert(out@ =~= pre + enc_opt_i32(x));
            }
        },
        None => {
            out.push(0u8);
            proof {
                assert(out@ =~= pre + enc_opt_i32(x));
            }
        },
    }
}

fn emit_entry(out: &mut Vec<u8>, e: &IndexerJobStepEntry)
    ensures
        final(out)@ == old(out)@ + enc_entry(entry_view(*e)),
{
    emit_str(out, e.full_path.as_str());
    emit_str(out, e.materialized_path.as_str());
    emit_bool(out, e.materialized_path.is_dir);
    emit_i32(out, e.materialized_path.location_id);
    emit_i64(out, e.created_at);
    emit_i32(out, e.file_id);
    emit_opt_i32(out, e.parent_id);
    proof {
        assert(out@ =~= old(out)@ + enc_entry(entry_view(*e)));
    }
}

/// Appending one entry extends the entries encoding at its end.
proof fn lemma_enc_entries_snoc(
    es: Seq<(Seq<char>, Seq<char>, bool, i32, i64, i32, Option<i32>)>,
    e: (Seq<char>, Seq<char>, bool, i32, i64, i32, Option<i32>),
)
    ensures
        enc_entries(es.push(e)) == enc_entries(es) + enc_entry(e),
    decreases es.len(),
{
    let p = es.push(e);
    if es.len() == 0 {
        assert(p[0] == e);
        assert(p.skip(1) =~= Seq::<
            (Seq<char>, Seq<char>, bool, i32, i64, i32, Option<i32>),
        >::empty());
        assert(enc_entries(p.skip(1)) == Seq::<u8>::empty());
        assert(enc_entries(p) == enc_entry(e) + enc_entries(p.skip(1)));
        assert(enc_entries(es) == Seq::<u8>::empty());
        assert(enc_entries(p) =~= enc_entries(es) + enc_entry(e));
    } else {
        assert(p[0] == es[0]);
        assert(p.skip(1) =~= es.skip(1).push(e));
        lemma_enc_entries_snoc(es.skip(1), e);
        assert(enc_entries(p) == enc_entry(es[0]) + enc_entries(es.skip(1).push(e)));
        assert(enc_entries(es.skip(1).push(e)) == enc_entries(es.skip(1)) + enc_entry(e));
        assert(enc_entries(es) == enc_entry(es[0]) + enc_entries(es.skip(1)));
        assert(enc_entries(p) =~= enc_entries(es) + enc_entry(e));
    }
}

fn emit_step(out: &mut Vec<u8>, s: &IndexerJobStep)
    ensures
        final(out)@ == old(out)@ + enc_step(step_view(*s)),
{
    let n = s.entries.len();
    emit_u64(out, n as u64);
    let ghost base = out@;
    let mut i: usize = 0;
    proof {
        assert(step_view(*s).take(0) =~= Seq::<
            (Seq<char>, Seq<char>, bool, i32, i64, i32, Option<i32>),
        >::empty());
        assert(out@ =~= base + enc_entries(step_view(*s).take(0)));
    }
    while i < n
        invariant
            i <= n,
            n == s.entries@.len(),
            out@ == base + enc_entries(step_view(*s).take(i as int)),
        decreases n - i,
    {
        emit_entry(out, &s.entries[i]);
        proof {
            assert(step_view(*s).take(i + 1) =~= step_view(*s).take(i as int).push(
                step_view(*s)[i as int],
            ));
            lemma_enc_entries_snoc(step_view(*s).take(i as int), step_view(*s)[i as int]);
            assert(step_view(*s)[i as int] == entry_view(s.entries@[i as int]));
            assert(out@ =~= base + enc_entries(step_view(*s).take(i + 1)));
        }
        i += 1;
    }
    proof {
        assert(step_view(*s).take(n as int) =~= step_view(*s));
        assert(step_view(*s).len() == n);
        assert(out@ =~= old(out)@ + enc_step(step_view(*s)));
    }
}

/// Appending one step extends the steps encoding at its end.
proof fn lemma_enc_steps_snoc(
    ss: Seq<Seq<(Seq<char>, Seq<char>, bool, i32, i64, i32, Option<i32>)>>,
    s: Seq<(Seq<char>, Seq<char>, bool, i32, i64, i32, Option<i32>)>,
)
    ensures
        enc_steps(ss.push(s)) == enc_steps(ss) + enc_step(s),
    decreases ss.len(),
{
    let p = ss.push(s);
    if ss.len() == 0 {
        assert(p[0] == s);
        assert(p.skip(1) =~= Seq::<
            Seq<(Seq<char>, Seq<char>, bool, i32, i64, i32, Option<i32>)>,
        >::empty());
        assert(enc_steps(p.skip(1)) == Seq::<u8>::empty());
        assert(enc_steps(p) == enc_step(s) + enc_steps(p.skip(1)));
        assert(enc_steps(ss) == Seq::<u8>::empty());
        assert(enc_steps(p) =~= enc_steps(ss) + enc_step(s));
    } else {
        assert(p[0] == ss[0]);
        assert(p.skip(1) =~= ss.skip(1).push(s));
        lemma_enc_steps_snoc(ss.skip(1), s);
        assert(enc_steps(p) == enc_step(ss[0]) + enc_steps(ss.skip(1).push(s)));
        assert(enc_steps(ss.skip(1).push(s)) == enc_steps(ss.skip(1)) + enc_step(s));
        assert(enc_steps(ss) == enc_step(ss[0]) + enc_steps(ss.skip(1)));
        assert(enc_steps(p) =~= enc_steps(ss) + enc_step(s));
    }
}

/// Serializes a job's counters and remaining steps.
pub fn encode_indexer_state(data: &IndexerJobData, steps: &Vec<IndexerJobStep>) -> (r: Vec<u8>)
    ensures
        r@ == enc_state(*data, steps_view(steps@)),
{
    let mut out: Vec<u8> = Vec::new();
    emit_i64(&mut out, data.db_write_start);
    emit_u64(&mut out, data.scan_read_time);
    emit_u64(&mut out, data.total_paths);
    emit_u64(&mut out, data.indexed_paths);
    proof {
        assert(out@ =~= enc_data(*data));
    }
    let n = steps.len();
    emit_u64(&mut out, n as u64);
    let ghost base = out@;
    let mut i: usize = 0;
    proof {
        assert(steps_view(steps@).take(0) =~= Seq::<
            Seq<(Seq<char>, Seq<char>, bool, i32, i64, i32, Option<i32>)>,
        >::empty());
        assert(out@ =~= base + enc_steps(steps_view(steps@).take(0)));
    }
    while i < n
        invariant
            i <= n,
            n == steps@.len(),
            out@ == base + enc_steps(steps_view(steps@).take(i as int)),
        decreases n - i,
    {
        emit_step(&mut out, &steps[i]);
        proof {
            assert(steps_view(steps@).take(i + 1) =~= steps_view(steps@).take(i as int).push(
                steps_view(steps@)[i as int],
            ));
            lemma_enc_steps_snoc(
                steps_view(steps@).take(i as int),
                steps_view(steps@)[i as int],
            );
            assert(steps_view(steps@)[i as int] == step_view(steps@[i as int]));
            assert(out@ =~= base + enc_steps(steps_view(steps@).take(i + 1)));
        }
        i += 1;
    }
    proof {
        assert(steps_view(steps@).take(n as int) =~= steps_view(steps@));
        assert(steps_view(steps@).len() == n);
        assert(out@ =~= enc_state(*data, steps_view(steps@)));
    }
    out
}

// ---- Executable decoding ----

/// Relies on char::from_u32: the character with the given value, or nothing
/// where the value is a surrogate or lies beyond the last code point.
pub assume_specification[ char::from_u32 ](i: u32) -> (r: Option<char>)
    ensures
        r is Some <==> valid_code_point(i),
        r matches Some(c) ==> c as u32 == i,
;

fn read_u64(bytes: &Vec<u8>, pos: usize) -> (r: Option<(u64, usize)>)
    requires
        pos <= bytes@.len(),
    ensures
        match r {
            Some(p) => dec_u64(bytes@.skip(pos as int)) == Some(
                (p.0, bytes@.skip(p.1 as int)),
            ) && pos <= p.1 <= bytes@.len(),
            None => dec_u64(bytes@.skip(pos as int)) is None,
        },
{
    if bytes.len() - pos < 8 {
        return None;
    }
    let sub = vstd::slice::slice_subrange(bytes.as_slice(), pos, pos + 8);
    let x = vstd::bytes::u64_from_le_bytes(sub);
    proof {
        assert(sub@ =~= bytes@.skip(pos as int).take(8));
        assert(bytes@.skip(pos as int).skip(8) =~= bytes@.skip(pos + 8));
    }
    Some((x, pos + 8))
}

fn read_u32(bytes: &Vec<u8>, pos: usize) -> (r: Option<(u32, usize)>)
    requires
        pos <= bytes@.len(),
    ensures
        match r {
            Some(p) => dec_u32(bytes@.skip(pos as int)) == Some(
                (p.0, bytes@.skip(p.1 as int)),
            ) && pos <= p.1 <= bytes@.len(),
            None => dec_u32(bytes@.skip(pos as int)) is None,
        },
{
    if bytes.len() - pos < 4 {
        return None;
    }
    let sub = vstd::slice::slice_subrange(bytes.as_slice(), pos, pos + 4);
    let x = vstd::bytes::u32_from_le_bytes(sub);
    proof {
        assert(sub@ =~= bytes@.skip(pos as int).take(4));
        assert(bytes@.skip(pos as int).skip(4) =~= bytes@.skip(pos + 4));
    }
    Some((x, pos + 4))
}

fn read_i64(bytes: &Vec<u8>, pos: usize) -> (r: Option<(i64, usize)>)
    requires
        pos <= bytes@.len(),
    ensures
        match r {
            Some(p) => dec_i64(bytes@.skip(pos as int)) == Some(
                (p.0, bytes@.skip(p.1 as int)),
            ) && pos <= p.1 <= bytes@.len(),
            None => dec_i64(bytes@.skip(pos as int)) is None,
        },
{
    match read_u64(bytes, pos) {
        Some((w, p2)) => {
            let x = ((w as i128) - 0x8000000000000000i128) as i64;
            proof {
                assert(x == u64_as_i64(w));
            }
            Some((x, p2))
        },
        None => None,
    }
}

fn read_i32(bytes: &Vec<u8>, pos: usize) -> (r: Option<(i32, usize)>)
    requires
        pos <= bytes@.len(),
    ensures
        match r {
            Some(p) => dec_i32(bytes@.skip(pos as int)) == Some(
                (p.0, bytes@.skip(p.1 as int)),
            ) && pos <= p.1 <= bytes@.len(),
            None => dec_i32(bytes@.skip(pos as int)) is None,
        },
{
    match read_i64(bytes, pos) {
        Some((x, p2)) => {
            if i32::MIN as i64 <= x && x <= i32::MAX as i64 {
                Some((x as i32, p2))
            } else {
                None
            }
        },
        None => None,
    }
}

fn read_bool(bytes: &Vec<u8>, pos: usize) -> (r: Option<(bool, usize)>)
    requires
        pos <= bytes@.len(),
    ensures
        match r {
            Some(p) => dec_bool(bytes@.skip(pos as int)) == Some(
                (p.0, bytes@.skip(p.1 as int)),
            ) && pos <= p.1 <= bytes@.len(),
            None => dec_bool(bytes@.skip(pos as int)) is None,
        },
{
    if bytes.len() - pos < 1 {
        return None;
    }
    let b = bytes[pos];
    proof {
        assert(bytes@.skip(pos as int)[0] == bytes@[pos as int]);
        assert(bytes@.skip(pos as int).skip(1) =~= bytes@.skip(pos + 1));
    }
    if b == 0u8 {
        Some((false, pos + 1))
    } else if b == 1u8 {
        Some((true, pos + 1))
    } else {
        None
    }
}

fn read_char(bytes: &Vec<u8>, pos: usize) -> (r: Option<(char, usize)>)
    requires
        pos <= bytes@.len(),
    ensures
        match r {
            Some(p) => dec_char(bytes@.skip(pos as int)) == Some(
                (p.0, bytes@.skip(p.1 as int)),
            ) && pos <= p.1 <= bytes@.len(),
            None => dec_char(bytes@.skip(pos as int)) is None,
        },
{
    match read_u32(bytes, pos) {
        Some((w, p2)) => match char::from_u32(w) {
            Some(c) => {
                proof {
                    assert(valid_code_point(w));
                    assert((c as u32) == w);
                    vstd::utf8::char_u32_cast(c, w);
                    assert(char_of_u32(w) == c);
                }
                Some((c, p2))
            },
            None => None,
        },
        None => None,
    }
}

fn read_chars(bytes: &Vec<u8>, pos: usize, n: u64) -> (r: Option<(String, usize)>)
    requires
        pos <= bytes@.len(),
    ensures
        match r {
            Some(p) => dec_chars(bytes@.skip(pos as int), n as nat) == Some(
                (p.0@, bytes@.skip(p.1 as int)),
            ) && pos <= p.1 <= bytes@.len(),
            None => dec_chars(bytes@.skip(pos as int), n as nat) is None,
        },
    decreases n,
{
    if n == 0 {
        let s = String::new();
        proof {
            assert(s@ =~= Seq::<char>::empty());
        }
        return Some((s, pos));
    }
    match read_char(bytes, pos) {
        Some((c, p1)) => match read_chars(bytes, p1, n - 1) {
            Some((tail, p2)) => {
                let mut s = String::new();
                s.push(c);
                s.append(tail.as_str());
                proof {
                    assert(s@ =~= seq![c] + tail@);
                }
                Some((s, p2))
            },
            None => None,
        },
        None => None,
    }
}

fn read_str(bytes: &Vec<u8>, pos: usize) -> (r: Option<(String, usize)>)
    requires
        pos <= bytes@.len(),
    ensures
        match r {
            Some(p) => dec_str(bytes@.skip(pos as int)) == Some(
                (p.0@, bytes@.skip(p.1 as int)),
            ) && pos <= p.1 <= bytes@.len(),
            None => dec_str(bytes@.skip(pos as int)) is None,
        },
{
    match read_u64(bytes, pos) {
        Some((n, p1)) => read_chars(bytes, p1, n),
        None => None,
    }
}

fn read_opt_i32(bytes: &Vec<u8>, pos: usize) -> (r: Option<(Option<i32>, usize)>)
    requires
        pos <= bytes@.len(),
    ensures
        match r {
            Some(p) => dec_opt_i32(bytes@.skip(pos as int)) == Some(
                (p.0, bytes@.skip(p.1 as int)),
            ) && pos <= p.1 <= bytes@.len(),
            None => dec_opt_i32(bytes@.skip(pos as int)) is None,
        },
{
    if bytes.len() - pos < 1 {
        return None;
    }
    let tag = bytes[pos];
    proof {
        assert(bytes@.skip(pos as int)[0] == bytes@[pos as int]);
        assert(bytes@.skip(pos as int).skip(1) =~= bytes@.skip(pos + 1));
    }
    if tag == 0u8 {
        Some((None, pos + 1))
    } else if tag == 1u8 {
        match read_i32(bytes, pos + 1) {
            Some((v, p2)) => Some((Some(v), p2)),
            None => None,
        }
    } else {
        None
    }
}

fn read_entry(bytes: &Vec<u8>, pos: usize) -> (r: Option<(IndexerJobStepEntry, usize)>)
    requires
        pos <= bytes@.len(),
    ensures
        match r {
            Some(p) => dec_entry(bytes@.skip(pos as int)) == Some(
                (entry_view(p.0), bytes@.skip(p.1 as int)),
            ) && pos <= p.1 <= bytes@.len(),
            None => dec_entry(bytes@.skip(pos as int)) is None,
        },
{
    let (full_path, p1) = match read_str(bytes, pos) {
        Some(p) => p,
        None => {
            return None;
        },
    };
    let (mp, p2) = match read_str(bytes, p1) {
        Some(p) => p,
        None => {
            return None;
        },
    };
    let (is_dir, p3) = match read_bool(bytes, p2) {
        Some(p) => p,
        None => {
            return None;
        },
    };
    let (loc, p4) = match read_i32(bytes, p3) {
        Some(p) => p,
        None => {
            return None;
        },
    };
    let (created, p5) = match read_i64(bytes, p4) {
        Some(p) => p,
        None => {
            return None;
        },
    };
    let (fid, p6) = match read_i32(bytes, p5) {
        Some(p) => p,
        None => {
            return None;
        },
    };
    let (parent, p7) = match read_opt_i32(bytes, p6) {
        Some(p) => p,
        None => {
            return None;
        },
    };
    let entry = IndexerJobStepEntry {
        full_path,
        materialized_path: crate::path::MaterializedPath {
            path: mp,
            is_dir,
            location_id: loc,
        },
        created_at: created,
        file_id: fid,
        parent_id: parent,
    };
    Some((entry, p7))
}

fn read_entries(bytes: &Vec<u8>, pos: usize, n: u64) -> (r: Option<
    (Vec<IndexerJobStepEntry>, usize),
>)
    requires
        pos <= bytes@.len(),
    ensures
        match r {
            Some(p) => dec_entries(bytes@.skip(pos as int), n as nat) == Some(
                (p.0@.map_values(|e: IndexerJobStepEntry| entry_view(e)), bytes@.skip(
                    p.1 as int,
                )),
            ) && pos <= p.1 <= bytes@.len(),
            None => dec_entries(bytes@.skip(pos as int), n as nat) is None,
        },
    decreases n,
{
    if n == 0 {
        let v: Vec<IndexerJobStepEntry> = Vec::new();
        proof {
            assert(v@.map_values(|e: IndexerJobStepEntry| entry_view(e)) =~= Seq::<
                (Seq<char>, Seq<char>, bool, i32, i64, i32, Option<i32>),
            >::empty());
        }
        return Some((v, pos));
    }
    match read_entry(bytes, pos) {
        Some((e, p1)) => match read_entries(bytes, p1, n - 1) {
            Some((mut tail, p2)) => {
                let ghost tv = tail@;
                tail.insert(0, e);
                proof {
                    assert(tail@ =~= seq![e] + tv);
                    assert(tail@.map_values(|e2: IndexerJobStepEntry| entry_view(e2))
                        =~= seq![entry_view(e)] + tv.map_values(
                        |e2: IndexerJobStepEntry| entry_view(e2),
                    ));
                }
                Some((tail, p2))
            },
            None => None,
        },
        None => None,
    }
}

fn read_step(bytes: &Vec<u8>, pos: usize) -> (r: Option<(IndexerJobStep, usize)>)
    requires
        pos <= bytes@.len(),
    ensures
        match r {
            Some(p) => dec_step(bytes@.skip(pos as int)) == Some(
                (step_view(p.0), bytes@.skip(p.1 as int)),
            ) && pos <= p.1 <= bytes@.len(),
            None => dec_step(bytes@.skip(pos as int)) is None,
        },
{
    match read_u64(bytes, pos) {
        Some((n, p1)) => match read_entries(bytes, p1, n) {
            Some((es, p2)) => Some((IndexerJobStep { entries: es }, p2)),
            None => None,
        },
        None => None,
    }
}

fn read_steps(bytes: &Vec<u8>, pos: usize, n: u64) -> (r: Option<(Vec<IndexerJobStep>, usize)>)
    requires
        pos <= bytes@.len(),
    ensures
        match r {
            Some(p) => dec_steps(bytes@.skip(pos as int), n as nat) == Some(
                (steps_view(p.0@), bytes@.skip(p.1 as int)),
            ) && pos <= p.1 <= bytes@.len(),
            None => dec_steps(bytes@.skip(pos as int), n as nat) is None,
        },
    decreases n,
{
    if n == 0 {
        let v: Vec<IndexerJobStep> = Vec::new();
        proof {
            assert(steps_view(v@) =~= Seq::<
                Seq<(Seq<char>, Seq<char>, bool, i32, i64, i32, Option<i32>)>,
            >::empty());
        }
        return Some((v, pos));
    }
    match read_step(bytes, pos) {
        Some((s, p1)) => match read_steps(bytes, p1, n - 1) {
            Some((mut tail, p2)) => {
                let ghost tv = tail@;
                tail.insert(0, s);
                proof {
                    assert(tail@ =~= seq![s] + tv);
                    assert(steps_view(tail@) =~= seq![step_view(s)] + steps_view(tv));
                }
                Some((tail, p2))
            },
            None => None,
        },
        None => None,
    }
}

/// Restores a job's counters and remaining steps from their persisted
/// form. Whatever `encode_indexer_state` wrote decodes back to the same
/// counters and the same steps.
pub fn decode_indexer_state(bytes: &Vec<u8>) -> (r: Option<(IndexerJobData, Vec<IndexerJobStep>)>)
    ensures
        match r {
            Some(p) => dec_state(bytes@) matches Some(q) && q.0 == p.0 && q.1 == steps_view(
                p.1@,
            ),
            None => dec_state(bytes@) is None,
        },
{
    proof {
        assert(bytes@.skip(0) =~= bytes@);
    }
    let (dws, p1) = match read_i64(bytes, 0) {
        Some(p) => p,
        None => {
            return None;
        },
    };
    let (srt, p2) = match read_u64(bytes, p1) {
        Some(p) => p,
        None => {
            return None;
        },
    };
    let (total, p3) = match read_u64(bytes, p2) {
        Some(p) => p,
        None => {
            return None;
        },
    };
    let (indexed, p4) = match read_u64(bytes, p3) {
        Some(p) => p,
        None => {
            return None;
        },
    };
    let data = IndexerJobData {
        db_write_start: dws,
        scan_read_time: srt,
        total_paths: total,
        indexed_paths: indexed,
    };
    let (n, p5) = match read_u64(bytes, p4) {
        Some(p) => p,
        None => {
            return None;
        },
    };
    match read_steps(bytes, p5, n) {
        Some((steps, _p6)) => Some((data, steps)),
        None => None,
    }
}

} // verus!
