//! The stored snapshot record format.
//!
//! A record is one byte string: the schema version first (so the format is
//! self-describing), then a checksum of the payload, then the payload. Every
//! integer is little-endian; every variable-length field is length-prefixed.
//! The encoders and decoders are given as spec functions over byte
//! sequences, the executable code is proved to match them, and a round-trip
//! lemma shows that decoding an encoded record yields the record back.

use vstd::prelude::*;

use crate::error::StoreError;
use crate::layout::{
    layout_wf, pane_wf, record_wf, tab_wf, window_wf, LayoutV, PaneNode, PaneV, RecordV,
    SnapshotRecord, TabLayout, TabV, WindowLayout, WindowV, WorkspaceLayout, MAX_FIELD,
};

verus! {

/// The schema version this library writes, and the newest it reads.
pub const SCHEMA_VERSION: u32 = 1;

/// Modulus of the payload checksum: byte sums are folded into 32 bits.
pub const CKSUM_MOD: u64 = 0x1_0000_0000;

// ---------------------------------------------------------------------------
// Spec encoders
// ---------------------------------------------------------------------------

/// Little-endian bytes of a `u32`.
pub open spec fn enc_u32(n: u32) -> Seq<u8> {
    seq![
        (n & 0xff) as u8,
        ((n >> 8) & 0xff) as u8,
        ((n >> 16) & 0xff) as u8,
        ((n >> 24) & 0xff) as u8,
    ]
}

/// Little-endian bytes of a `u64`.
pub open spec fn enc_u64(n: u64) -> Seq<u8> {
    seq![
        (n & 0xff) as u8,
        ((n >> 8) & 0xff) as u8,
        ((n >> 16) & 0xff) as u8,
        ((n >> 24) & 0xff) as u8,
        ((n >> 32) & 0xff) as u8,
        ((n >> 40) & 0xff) as u8,
        ((n >> 48) & 0xff) as u8,
        ((n >> 56) & 0xff) as u8,
    ]
}

/// A length-prefixed byte string.
pub open spec fn enc_bytes(v: Seq<u8>) -> Seq<u8> {
    enc_u32(v.len() as u32) + v
}

/// An optional byte string: a presence tag, then the string if present.
pub open spec fn enc_opt_bytes(o: Option<Seq<u8>>) -> Seq<u8> {
    match o {
        None => seq![0u8],
        Some(v) => seq![1u8] + enc_bytes(v),
    }
}

/// One pane node: a tag, then the variant's fields.
pub open spec fn enc_pane(p: PaneV) -> Seq<u8> {
    match p {
        PaneV::Leaf { cwd, command } => seq![0u8] + enc_bytes(cwd) + enc_opt_bytes(command),
        PaneV::Split { horizontal, ratio_permille, first, second } => seq![
            1u8,
            if horizontal {
                1u8
            } else {
                0u8
            },
        ] + enc_u32(ratio_permille) + enc_u32(first as u32) + enc_u32(second as u32),
    }
}

/// The nodes of a pane arena, in order.
pub open spec fn enc_pane_list(s: Seq<PaneV>) -> Seq<u8>
    decreases s.len(),
{
    if s.len() == 0 {
        Seq::empty()
    } else {
        enc_pane(s[0]) + enc_pane_list(s.skip(1))
    }
}

/// A tab: its pane count, then its nodes.
pub open spec fn enc_tab(t: TabV) -> Seq<u8> {
    enc_u32(t.panes.len() as u32) + enc_pane_list(t.panes)
}

/// The tabs of a window, in order.
pub open spec fn enc_tab_list(s: Seq<TabV>) -> Seq<u8>
    decreases s.len(),
{
    if s.len() == 0 {
        Seq::empty()
    } else {
        enc_tab(s[0]) + enc_tab_list(s.skip(1))
    }
}

/// A window: its tab count, then its tabs.
pub open spec fn enc_window(w: WindowV) -> Seq<u8> {
    enc_u32(w.tabs.len() as u32) + enc_tab_list(w.tabs)
}

/// The windows of a layout, in order.
pub open spec fn enc_window_list(s: Seq<WindowV>) -> Seq<u8>
    decreases s.len(),
{
    if s.len() == 0 {
        Seq::empty()
    } else {
        enc_window(s[0]) + enc_window_list(s.skip(1))
    }
}

/// A layout: its window count, then its windows.
pub open spec fn enc_layout(l: LayoutV) -> Seq<u8> {
    enc_u32(l.windows.len() as u32) + enc_window_list(l.windows)
}

/// The payload of a record: every field but the version and the checksum.
pub open spec fn enc_payload(r: RecordV) -> Seq<u8> {
    enc_bytes(r.name) + enc_opt_bytes(r.description) + enc_u64(r.created_at) + enc_layout(r.layout)
}

/// Byte sum of a sequence, folded into 32 bits.
pub open spec fn cksum(s: Seq<u8>) -> int
    decreases s.len(),
{
    if s.len() == 0 {
        0
    } else {
        (cksum(s.drop_last()) + s.last()) % (CKSUM_MOD as int)
    }
}

/// A whole stored record: version, payload checksum, payload.
pub open spec fn enc_record(r: RecordV) -> Seq<u8> {
    enc_u32(r.schema_version) + enc_u64(cksum(enc_payload(r)) as u64) + enc_payload(r)
}

// ---------------------------------------------------------------------------
// Spec decoders: each takes the remaining bytes and yields the decoded
// value with the bytes after it, or nothing when the input does not fit.
// ---------------------------------------------------------------------------

/// Recomposes a `u32` from its little-endian bytes.
pub open spec fn u32_of_le(b0: u8, b1: u8, b2: u8, b3: u8) -> u32 {
    (b0 as u32) | ((b1 as u32) << 8) | ((b2 as u32) << 16) | ((b3 as u32) << 24)
}

/// Recomposes a `u64` from its little-endian bytes.
pub open spec fn u64_of_le(
    b0: u8,
    b1: u8,
    b2: u8,
    b3: u8,
    b4: u8,
    b5: u8,
    b6: u8,
    b7: u8,
) -> u64 {
    (b0 as u64) | ((b1 as u64) << 8) | ((b2 as u64) << 16) | ((b3 as u64) << 24) | ((b4
        as u64) << 32) | ((b5 as u64) << 40) | ((b6 as u64) << 48) | ((b7 as u64) << 56)
}

pub open spec fn dec_u32(s: Seq<u8>) -> Option<(u32, Seq<u8>)> {
    if s.len() >= 4 {
        Some((u32_of_le(s[0], s[1], s[2], s[3]), s.skip(4)))
    } else {
        None
    }
}

pub open spec fn dec_u64(s: Seq<u8>) -> Option<(u64, Seq<u8>)> {
    if s.len() >= 8 {
        Some((u64_of_le(s[0], s[1], s[2], s[3], s[4], s[5], s[6], s[7]), s.skip(8)))
    } else {
        None
    }
}

pub open spec fn dec_bytes(s: Seq<u8>) -> Option<(Seq<u8>, Seq<u8>)> {
    match dec_u32(s) {
        None => None,
        Some((n, r)) => if r.len() >= n {
            Some((r.take(n as int), r.skip(n as int)))
        } else {
            None
        },
    }
}

pub open spec fn dec_opt_bytes(s: Seq<u8>) -> Option<(Option<Seq<u8>>, Seq<u8>)> {
    if s.len() < 1 {
        None
    } else if s[0] == 0 {
        Some((None, s.skip(1)))
    } else if s[0] == 1 {
        match dec_bytes(s.skip(1)) {
            None => None,
            Some((v, r)) => Some((Some(v), r)),
        }
    } else {
        None
    }
}

pub open spec fn dec_pane(s: Seq<u8>) -> Option<(PaneV, Seq<u8>)> {
    if s.len() < 1 {
        None
    } else if s[0] == 0 {
        match dec_bytes(s.skip(1)) {
            None => None,
            Some((cwd, r1)) => match dec_opt_bytes(r1) {
                None => None,
                Some((command, r2)) => Some((PaneV::Leaf { cwd, command }, r2)),
            },
        }
    } else if s[0] == 1 {
        if s.len() < 2 || s[1] > 1 {
            None
        } else {
            let horizontal = s[1] == 1;
            match dec_u32(s.skip(2)) {
                None => None,
                Some((ratio_permille, r1)) => match dec_u32(r1) {
                    None => None,
                    Some((first, r2)) => match dec_u32(r2) {
                        None => None,
                        Some((second, r3)) => Some(
                            (
                                PaneV::Split {
                                    horizontal,
                                    ratio_permille,
                                    first: first as int,
                                    second: second as int,
                                },
                                r3,
                            ),
                        ),
                    },
                },
            }
        }
    } else {
        None
    }
}

pub open spec fn dec_pane_list(s: Seq<u8>, n: nat) -> Option<(Seq<PaneV>, Seq<u8>)>
    decreases n,
{
    if n == 0 {
        Some((Seq::empty(), s))
    } else {
        match dec_pane(s) {
            None => None,
            Some((p, r)) => match dec_pane_list(r, (n - 1) as nat) {
                None => None,
                Some((rest, r2)) => Some((seq![p] + rest, r2)),
            },
        }
    }
}

pub open spec fn dec_tab(s: Seq<u8>) -> Option<(TabV, Seq<u8>)> {
    match dec_u32(s) {
        None => None,
        Some((n, r)) => match dec_pane_list(r, n as nat) {
            None => None,
            Some((panes, r2)) => Some((TabV { panes }, r2)),
        },
    }
}

pub open spec fn dec_tab_list(s: Seq<u8>, n: nat) -> Option<(Seq<TabV>, Seq<u8>)>
    decreases n,
{
    if n == 0 {
        Some((Seq::empty(), s))
    } else {
        match dec_tab(s) {
            None => None,
            Some((t, r)) => match dec_tab_list(r, (n - 1) as nat) {
                None => None,
                Some((rest, r2)) => Some((seq![t] + rest, r2)),
            },
        }
    }
}

pub open spec fn dec_window(s: Seq<u8>) -> Option<(WindowV, Seq<u8>)> {
    match dec_u32(s) {
        None => None,
        Some((n, r)) => match dec_tab_list(r, n as nat) {
            None => None,
            Some((tabs, r2)) => Some((WindowV { tabs }, r2)),
        },
    }
}

pub open spec fn dec_window_list(s: Seq<u8>, n: nat) -> Option<(Seq<WindowV>, Seq<u8>)>
    decreases n,
{
    if n == 0 {
        Some((Seq::empty(), s))
    } else {
        match dec_window(s) {
            None => None,
            Some((w, r)) => match dec_window_list(r, (n - 1) as nat) {
                None => None,
                Some((rest, r2)) => Some((seq![w] + rest, r2)),
            },
        }
    }
}

pub open spec fn dec_layout(s: Seq<u8>) -> Option<(LayoutV, Seq<u8>)> {
    match dec_u32(s) {
        None => None,
        Some((n, r)) => match dec_window_list(r, n as nat) {
            None => None,
            Some((windows, r2)) => Some((LayoutV { windows }, r2)),
        },
    }
}

/// Decodes the payload fields with a given version and checks nothing
/// remains after them.
pub open spec fn dec_payload(s: Seq<u8>, version: u32) -> Option<RecordV> {
    match dec_bytes(s) {
        None => None,
        Some((name, r1)) => match dec_opt_bytes(r1) {
            None => None,
            Some((description, r2)) => match dec_u64(r2) {
                None => None,
                Some((created_at, r3)) => match dec_layout(r3) {
                    None => None,
                    Some((layout, r4)) => if r4.len() == 0 {
                        Some(
                            RecordV {
                                name,
                                description,
                                created_at,
                                schema_version: version,
                                layout,
                            },
                        )
                    } else {
                        None
                    },
                },
            },
        },
    }
}

/// The version field of a stored byte string, if one can be read at all.
pub open spec fn stored_version(s: Seq<u8>) -> Option<u32> {
    match dec_u32(s) {
        None => None,
        Some((v, _)) => Some(v),
    }
}

// ---------------------------------------------------------------------------
// Round trip: decoding an encoding yields the encoded value.
// ---------------------------------------------------------------------------

/// Size bounds a pane node must meet for its encoding to decode back.
pub open spec fn pane_bounded(p: PaneV) -> bool {
    match p {
        PaneV::Leaf { cwd, command } => {
            cwd.len() <= MAX_FIELD && (command matches Some(c) ==> c.len() <= MAX_FIELD)
        },
        PaneV::Split { horizontal, ratio_permille, first, second } => {
            0 <= first <= MAX_FIELD && 0 <= second <= MAX_FIELD
        },
    }
}

/// The checksum always lies inside its modulus.
pub proof fn lemma_cksum_bound(s: Seq<u8>)
    ensures
        0 <= cksum(s) < CKSUM_MOD,
    decreases s.len(),
{
    if s.len() == 0 {
    } else {
        lemma_cksum_bound(s.drop_last());
    }
}

pub proof fn lemma_dec_enc_u32(n: u32, rest: Seq<u8>)
    ensures
        dec_u32(enc_u32(n) + rest) == Some((n, rest)),
{
    let s = enc_u32(n) + rest;
    assert(s.skip(4) =~= rest);
    assert((((n & 0xff) as u8) as u32 | ((((n >> 8) & 0xff) as u8) as u32) << 8 | ((((n >> 16)
        & 0xff) as u8) as u32) << 16 | ((((n >> 24) & 0xff) as u8) as u32) << 24) == n)
        by (bit_vector);
}

pub proof fn lemma_dec_enc_u64(n: u64, rest: Seq<u8>)
    ensures
        dec_u64(enc_u64(n) + rest) == Some((n, rest)),
{
    let s = enc_u64(n) + rest;
    assert(s.skip(8) =~= rest);
    assert((((n & 0xff) as u8) as u64 | ((((n >> 8) & 0xff) as u8) as u64) << 8 | ((((n >> 16)
        & 0xff) as u8) as u64) << 16 | ((((n >> 24) & 0xff) as u8) as u64) << 24 | ((((n >> 32)
        & 0xff) as u8) as u64) << 32 | ((((n >> 40) & 0xff) as u8) as u64) << 40 | ((((n >> 48)
        & 0xff) as u8) as u64) << 48 | ((((n >> 56) & 0xff) as u8) as u64) << 56) == n)
        by (bit_vector);
}

pub proof fn lemma_dec_enc_bytes(v: Seq<u8>, rest: Seq<u8>)
    requires
        v.len() <= MAX_FIELD,
    ensures
        dec_bytes(enc_bytes(v) + rest) == Some((v, rest)),
{
    let s = enc_bytes(v) + rest;
    assert(s =~= enc_u32(v.len() as u32) + (v + rest));
    lemma_dec_enc_u32(v.len() as u32, v + rest);
    let n = v.len() as u32;
    assert((v + rest).take(n as int) =~= v);
    assert((v + rest).skip(n as int) =~= rest);
}

pub proof fn lemma_dec_enc_opt_bytes(o: Option<Seq<u8>>, rest: Seq<u8>)
    requires
        o matches Some(v) ==> v.len() <= MAX_FIELD,
    ensures
        dec_opt_bytes(enc_opt_bytes(o) + rest) == Some((o, rest)),
{
    let s = enc_opt_bytes(o) + rest;
    match o {
        None => {
            assert(s[0] == 0);
            assert(s.skip(1) =~= rest);
        },
        Some(v) => {
            assert(s[0] == 1);
            assert(s.skip(1) =~= enc_bytes(v) + rest);
            lemma_dec_enc_bytes(v, rest);
        },
    }
}

pub proof fn lemma_dec_enc_pane(p: PaneV, rest: Seq<u8>)
    requires
        pane_bounded(p),
    ensures
        dec_pane(enc_pane(p) + rest) == Some((p, rest)),
{
    let s = enc_pane(p) + rest;
    match p {
        PaneV::Leaf { cwd, command } => {
            assert(s[0] == 0);
            assert(s.skip(1) =~= enc_bytes(cwd) + (enc_opt_bytes(command) + rest));
            lemma_dec_enc_bytes(cwd, enc_opt_bytes(command) + rest);
            lemma_dec_enc_opt_bytes(command, rest);
        },
        PaneV::Split { horizontal, ratio_permille, first, second } => {
            assert(s[0] == 1);
            assert(s[1] == (if horizontal { 1u8 } else { 0u8 }));
            assert(s.skip(2) =~= enc_u32(ratio_permille) + (enc_u32(first as u32) + (enc_u32(
                second as u32,
            ) + rest)));
            lemma_dec_enc_u32(ratio_permille, enc_u32(first as u32) + (enc_u32(second as u32) + rest));
            lemma_dec_enc_u32(first as u32, enc_u32(second as u32) + rest);
            lemma_dec_enc_u32(second as u32, rest);
            assert((first as u32) as int == first);
            assert((second as u32) as int == second);
        },
    }
}

#[verifier::rlimit(60)]
pub proof fn lemma_dec_enc_pane_list(s: Seq<PaneV>, rest: Seq<u8>)
    requires
        forall|i: int| 0 <= i < s.len() ==> pane_bounded(#[trigger] s[i]),
    ensures
        dec_pane_list(enc_pane_list(s) + rest, s.len()) == Some((s, rest)),
    decreases s.len(),
{
    if s.len() == 0 {
        assert(enc_pane_list(s) + rest =~= rest);
        assert(s =~= Seq::<PaneV>::empty());
    } else {
        let tail = s.skip(1);
        assert(enc_pane_list(s) + rest =~= enc_pane(s[0]) + (enc_pane_list(tail) + rest));
        lemma_dec_enc_pane(s[0], enc_pane_list(tail) + rest);
        assert(forall|i: int| 0 <= i < tail.len() ==> pane_bounded(#[trigger] tail[i]));
        lemma_dec_enc_pane_list(tail, rest);
        assert(seq![s[0]] + tail =~= s);
    }
}

pub proof fn lemma_dec_enc_tab(t: TabV, rest: Seq<u8>)
    requires
        tab_wf(t),
    ensures
        dec_tab(enc_tab(t) + rest) == Some((t, rest)),
{
    assert(enc_tab(t) + rest =~= enc_u32(t.panes.len() as u32) + (enc_pane_list(t.panes) + rest));
    lemma_dec_enc_u32(t.panes.len() as u32, enc_pane_list(t.panes) + rest);
    assert(forall|i: int| 0 <= i < t.panes.len() ==> pane_bounded(#[trigger] t.panes[i])) by {
        assert(forall|i: int|
            0 <= i < t.panes.len() ==> pane_wf(
                #[trigger] t.panes[i],
                i,
                t.panes.len() as int,
            ));
    }
    lemma_dec_enc_pane_list(t.panes, rest);
}

#[verifier::rlimit(60)]
pub proof fn lemma_dec_enc_tab_list(s: Seq<TabV>, rest: Seq<u8>)
    requires
        forall|i: int| 0 <= i < s.len() ==> tab_wf(#[trigger] s[i]),
    ensures
        dec_tab_list(enc_tab_list(s) + rest, s.len()) == Some((s, rest)),
    decreases s.len(),
{
    if s.len() == 0 {
        assert(enc_tab_list(s) + rest =~= rest);
        assert(s =~= Seq::<TabV>::empty());
    } else {
        let tail = s.skip(1);
        assert(enc_tab_list(s) + rest =~= enc_tab(s[0]) + (enc_tab_list(tail) + rest));
        lemma_dec_enc_tab(s[0], enc_tab_list(tail) + rest);
        assert(forall|i: int| 0 <= i < tail.len() ==> tab_wf(#[trigger] tail[i]));
        lemma_dec_enc_tab_list(tail, rest);
        assert(seq![s[0]] + tail =~= s);
    }
}

pub proof fn lemma_dec_enc_window(w: WindowV, rest: Seq<u8>)
    requires
        window_wf(w),
    ensures
        dec_window(enc_window(w) + rest) == Some((w, rest)),
{
    assert(enc_window(w) + rest =~= enc_u32(w.tabs.len() as u32) + (enc_tab_list(w.tabs) + rest));
    lemma_dec_enc_u32(w.tabs.len() as u32, enc_tab_list(w.tabs) + rest);
    lemma_dec_enc_tab_list(w.tabs, rest);
}

#[verifier::rlimit(60)]
pub proof fn lemma_dec_enc_window_list(s: Seq<WindowV>, rest: Seq<u8>)
    requires
        forall|i: int| 0 <= i < s.len() ==> window_wf(#[trigger] s[i]),
    ensures
        dec_window_list(enc_window_list(s) + rest, s.len()) == Some((s, rest)),
    decreases s.len(),
{
    if s.len() == 0 {
        assert(enc_window_list(s) + rest =~= rest);
        assert(s =~= Seq::<WindowV>::empty());
    } else {
        let tail = s.skip(1);
        assert(enc_window_list(s) + rest =~= enc_window(s[0]) + (enc_window_list(tail) + rest));
        lemma_dec_enc_window(s[0], enc_window_list(tail) + rest);
        assert(forall|i: int| 0 <= i < tail.len() ==> window_wf(#[trigger] tail[i]));
        lemma_dec_enc_window_list(tail, rest);
        assert(seq![s[0]] + tail =~= s);
    }
}

pub proof fn lemma_dec_enc_layout(l: LayoutV, rest: Seq<u8>)
    requires
        layout_wf(l),
    ensures
        dec_layout(enc_layout(l) + rest) == Some((l, rest)),
{
    assert(enc_layout(l) + rest =~= enc_u32(l.windows.len() as u32) + (enc_window_list(l.windows)
        + rest));
    lemma_dec_enc_u32(l.windows.len() as u32, enc_window_list(l.windows) + rest);
    lemma_dec_enc_window_list(l.windows, rest);
}

/// Round trip of the payload fields.
pub proof fn lemma_dec_enc_payload(r: RecordV)
    requires
        record_wf(r),
    ensures
        dec_payload(enc_payload(r), r.schema_version) == Some(r),
{
    let s = enc_payload(r);
    let rest1 = enc_opt_bytes(r.description) + (enc_u64(r.created_at) + enc_layout(r.layout));
    assert(s =~= enc_bytes(r.name) + rest1);
    lemma_dec_enc_bytes(r.name, rest1);
    let rest2 = enc_u64(r.created_at) + enc_layout(r.layout);
    lemma_dec_enc_opt_bytes(r.description, rest2);
    lemma_dec_enc_u64(r.created_at, enc_layout(r.layout));
    assert(enc_layout(r.layout) + Seq::<u8>::empty() =~= enc_layout(r.layout));
    lemma_dec_enc_layout(r.layout, Seq::empty());
}

/// Round trip of a whole record: decoding the encoding of a well-formed
/// record of a known schema version yields that record.
pub proof fn lemma_dec_enc_record(r: RecordV)
    requires
        record_wf(r),
        r.schema_version <= SCHEMA_VERSION,
    ensures
        dec_record(enc_record(r)) == Some(r),
{
    let payload = enc_payload(r);
    lemma_cksum_bound(payload);
    let sum = cksum(payload) as u64;
    let s = enc_record(r);
    assert(s =~= enc_u32(r.schema_version) + (enc_u64(sum) + payload));
    lemma_dec_enc_u32(r.schema_version, enc_u64(sum) + payload);
    lemma_dec_enc_u64(sum, payload);
    lemma_dec_enc_payload(r);
}

/// Full decoding of a stored byte string: version readable and known,
/// checksum matching, payload decoding with nothing left over.
pub open spec fn dec_record(s: Seq<u8>) -> Option<RecordV> {
    match dec_u32(s) {
        None => None,
        Some((version, r1)) => if version > SCHEMA_VERSION {
            None
        } else {
            match dec_u64(r1) {
                None => None,
                Some((sum, r2)) => if sum == cksum(r2) {
                    dec_payload(r2, version)
                } else {
                    None
                },
            }
        },
    }
}

/// The error a failed decoding reports: `UnsupportedVersion` when the
/// version field reads as a newer version than this library knows,
/// `Corrupt` otherwise.
pub open spec fn parse_err(s: Seq<u8>) -> StoreError {
    match stored_version(s) {
        Some(v) => if v > SCHEMA_VERSION {
            StoreError::UnsupportedVersion
        } else {
            StoreError::Corrupt
        },
        None => StoreError::Corrupt,
    }
}

// ---------------------------------------------------------------------------
// Executable encoder
// ---------------------------------------------------------------------------

/// `enc_pane_list` distributes over appending one node.
pub proof fn lemma_enc_pane_list_snoc(s: Seq<PaneV>, p: PaneV)
    ensures
        enc_pane_list(s.push(p)) == enc_pane_list(s) + enc_pane(p),
    decreases s.len(),
{
    if s.len() == 0 {
        assert(s.push(p)[0] == p);
        assert(s.push(p).skip(1) =~= Seq::<PaneV>::empty());
        assert(enc_pane_list(s.push(p).skip(1)) == Seq::<u8>::empty());
        assert(enc_pane_list(s.push(p)) == enc_pane(p) + Seq::<u8>::empty());
        assert(enc_pane(p) + Seq::<u8>::empty() =~= Seq::<u8>::empty() + enc_pane(p));
        assert(enc_pane_list(s) == Seq::<u8>::empty());
    } else {
        assert(s.push(p)[0] == s[0]);
        assert(s.push(p).skip(1) =~= s.skip(1).push(p));
        lemma_enc_pane_list_snoc(s.skip(1), p);
        assert(enc_pane_list(s.push(p)) == enc_pane(s[0]) + (enc_pane_list(s.skip(1)) + enc_pane(
            p,
        )));
        assert(enc_pane(s[0]) + (enc_pane_list(s.skip(1)) + enc_pane(p)) =~= (enc_pane(s[0])
            + enc_pane_list(s.skip(1))) + enc_pane(p));
    }
}

/// `enc_tab_list` distributes over appending one tab.
pub proof fn lemma_enc_tab_list_snoc(s: Seq<TabV>, t: TabV)
    ensures
        enc_tab_list(s.push(t)) == enc_tab_list(s) + enc_tab(t),
    decreases s.len(),
{
    if s.len() == 0 {
        assert(s.push(t)[0] == t);
        assert(s.push(t).skip(1) =~= Seq::<TabV>::empty());
        assert(enc_tab_list(s.push(t).skip(1)) == Seq::<u8>::empty());
        assert(enc_tab_list(s.push(t)) == enc_tab(t) + Seq::<u8>::empty());
        assert(enc_tab(t) + Seq::<u8>::empty() =~= Seq::<u8>::empty() + enc_tab(t));
        assert(enc_tab_list(s) == Seq::<u8>::empty());
    } else {
        assert(s.push(t)[0] == s[0]);
        assert(s.push(t).skip(1) =~= s.skip(1).push(t));
        lemma_enc_tab_list_snoc(s.skip(1), t);
        assert(enc_tab_list(s.push(t)) == enc_tab(s[0]) + (enc_tab_list(s.skip(1)) + enc_tab(
            t,
        )));
        assert(enc_tab(s[0]) + (enc_tab_list(s.skip(1)) + enc_tab(t)) =~= (enc_tab(s[0])
            + enc_tab_list(s.skip(1))) + enc_tab(t));
    }
}

/// `enc_window_list` distributes over appending one window.
pub proof fn lemma_enc_window_list_snoc(s: Seq<WindowV>, w: WindowV)
    ensures
        enc_window_list(s.push(w)) == enc_window_list(s) + enc_window(w),
    decreases s.len(),
{
    if s.len() == 0 {
        assert(s.push(w)[0] == w);
        assert(s.push(w).skip(1) =~= Seq::<WindowV>::empty());
        assert(enc_window_list(s.push(w).skip(1)) == Seq::<u8>::empty());
        assert(enc_window_list(s.push(w)) == enc_window(w) + Seq::<u8>::empty());
        assert(enc_window(w) + Seq::<u8>::empty() =~= Seq::<u8>::empty() + enc_window(w));
        assert(enc_window_list(s) == Seq::<u8>::empty());
    } else {
        assert(s.push(w)[0] == s[0]);
        assert(s.push(w).skip(1) =~= s.skip(1).push(w));
        lemma_enc_window_list_snoc(s.skip(1), w);
        assert(enc_window_list(s.push(w)) == enc_window(s[0]) + (enc_window_list(s.skip(1)) + enc_window(
            w,
        )));
        assert(enc_window(s[0]) + (enc_window_list(s.skip(1)) + enc_window(w)) =~= (enc_window(s[0])
            + enc_window_list(s.skip(1))) + enc_window(w));
    }
}

/// Appends the little-endian bytes of a `u32`.
fn put_u32(out: &mut Vec<u8>, n: u32)
    ensures
        final(out)@ == old(out)@ + enc_u32(n),
{
    out.push((n & 0xff) as u8);
    out.push(((n >> 8) & 0xff) as u8);
    out.push(((n >> 16) & 0xff) as u8);
    out.push(((n >> 24) & 0xff) as u8);
    assert(out@ =~= old(out)@ + enc_u32(n));
}

/// Appends the little-endian bytes of a `u64`.
fn put_u64(out: &mut Vec<u8>, n: u64)
    ensures
        final(out)@ == old(out)@ + enc_u64(n),
{
    out.push((n & 0xff) as u8);
    out.push(((n >> 8) & 0xff) as u8);
    out.push(((n >> 16) & 0xff) as u8);
    out.push(((n >> 24) & 0xff) as u8);
    out.push(((n >> 32) & 0xff) as u8);
    out.push(((n >> 40) & 0xff) as u8);
    out.push(((n >> 48) & 0xff) as u8);
    out.push(((n >> 56) & 0xff) as u8);
    assert(out@ =~= old(out)@ + enc_u64(n));
}

/// Appends a copy of `v`.
fn push_all(out: &mut Vec<u8>, v: &Vec<u8>)
    ensures
        final(out)@ == old(out)@ + v@,
{
    for i in 0..v.len()
        invariant
            out@ == old(out)@ + v@.take(i as int),
    {
        out.push(v[i]);
        assert(old(out)@ + v@.take(i as int) + seq![v@[i as int]] =~= old(out)@ + v@.take(
            i + 1,
        ));
    }
    assert(v@.take(v.len() as int) =~= v@);
}

/// Appends a length-prefixed byte string.
fn put_bytes(out: &mut Vec<u8>, v: &Vec<u8>)
    requires
        v.len() <= MAX_FIELD,
    ensures
        final(out)@ == old(out)@ + enc_bytes(v@),
{
    put_u32(out, v.len() as u32);
    push_all(out, v);
    assert(out@ =~= old(out)@ + enc_bytes(v@));
}

/// Appends an optional byte string.
fn put_opt_bytes(out: &mut Vec<u8>, o: &Option<Vec<u8>>)
    requires
        o matches Some(v) ==> v.len() <= MAX_FIELD,
    ensures
        final(out)@ == old(out)@ + enc_opt_bytes(
            match o {
                None => None,
                Some(v) => Some(v@),
            },
        ),
{
    match o {
        None => {
            out.push(0u8);
            assert(out@ =~= old(out)@ + enc_opt_bytes(None));
        },
        Some(v) => {
            out.push(1u8);
            put_bytes(out, v);
            assert(out@ =~= old(out)@ + enc_opt_bytes(Some(v@)));
        },
    }
}

/// Appends one pane node.
fn put_pane(out: &mut Vec<u8>, p: &PaneNode)
    requires
        pane_bounded(p@),
    ensures
        final(out)@ == old(out)@ + enc_pane(p@),
{
    match p {
        PaneNode::Leaf { cwd, command } => {
            out.push(0u8);
            put_bytes(out, cwd);
            put_opt_bytes(out, command);
            assert(out@ =~= old(out)@ + enc_pane(p@));
        },
        PaneNode::Split { horizontal, ratio_permille, first, second } => {
            out.push(1u8);
            out.push(if *horizontal {
                1u8
            } else {
                0u8
            });
            put_u32(out, *ratio_permille);
            put_u32(out, *first as u32);
            put_u32(out, *second as u32);
            assert(out@ =~= old(out)@ + enc_pane(p@));
        },
    }
}

/// Appends one tab.
fn put_tab(out: &mut Vec<u8>, t: &TabLayout)
    requires
        tab_wf(t@),
    ensures
        final(out)@ == old(out)@ + enc_tab(t@),
{
    put_u32(out, t.panes.len() as u32);
    let ghost panes_v = t@.panes;
    for i in 0..t.panes.len()
        invariant
            panes_v == t@.panes,
            t.panes@.len() == panes_v.len(),
            tab_wf(t@),
            out@ == old(out)@ + enc_u32(panes_v.len() as u32) + enc_pane_list(
                panes_v.take(i as int),
            ),
    {
        proof {
            assert(pane_wf(panes_v[i as int], i as int, panes_v.len() as int));
            assert(pane_bounded(t.panes@[i as int]@));
        }
        put_pane(out, &t.panes[i]);
        proof {
            lemma_enc_pane_list_snoc(panes_v.take(i as int), panes_v[i as int]);
            assert(panes_v.take(i as int).push(panes_v[i as int]) =~= panes_v.take(i + 1));
            assert(out@ =~= old(out)@ + enc_u32(panes_v.len() as u32) + enc_pane_list(
                panes_v.take(i + 1),
            ));
        }
    }
    assert(panes_v.take(panes_v.len() as int) =~= panes_v);
    assert(out@ =~= old(out)@ + enc_tab(t@));
}

/// Appends one window.
fn put_window(out: &mut Vec<u8>, w: &WindowLayout)
    requires
        window_wf(w@),
    ensures
        final(out)@ == old(out)@ + enc_window(w@),
{
    put_u32(out, w.tabs.len() as u32);
    let ghost tabs_v = w@.tabs;
    for i in 0..w.tabs.len()
        invariant
            tabs_v == w@.tabs,
            w.tabs@.len() == tabs_v.len(),
            window_wf(w@),
            out@ == old(out)@ + enc_u32(tabs_v.len() as u32) + enc_tab_list(tabs_v.take(i as int)),
    {
        proof {
            assert(tab_wf(tabs_v[i as int]));
        }
        put_tab(out, &w.tabs[i]);
        proof {
            lemma_enc_tab_list_snoc(tabs_v.take(i as int), tabs_v[i as int]);
            assert(tabs_v.take(i as int).push(tabs_v[i as int]) =~= tabs_v.take(i + 1));
            assert(out@ =~= old(out)@ + enc_u32(tabs_v.len() as u32) + enc_tab_list(
                tabs_v.take(i + 1),
            ));
        }
    }
    assert(tabs_v.take(tabs_v.len() as int) =~= tabs_v);
    assert(out@ =~= old(out)@ + enc_window(w@));
}

/// Appends a whole layout.
fn put_layout(out: &mut Vec<u8>, l: &WorkspaceLayout)
    requires
        layout_wf(l@),
    ensures
        final(out)@ == old(out)@ + enc_layout(l@),
{
    put_u32(out, l.windows.len() as u32);
    let ghost wins_v = l@.windows;
    for i in 0..l.windows.len()
        invariant
            wins_v == l@.windows,
            l.windows@.len() == wins_v.len(),
            layout_wf(l@),
            out@ == old(out)@ + enc_u32(wins_v.len() as u32) + enc_window_list(
                wins_v.take(i as int),
            ),
    {
        proof {
            assert(window_wf(wins_v[i as int]));
        }
        put_window(out, &l.windows[i]);
        proof {
            lemma_enc_window_list_snoc(wins_v.take(i as int), wins_v[i as int]);
            assert(wins_v.take(i as int).push(wins_v[i as int]) =~= wins_v.take(i + 1));
            assert(out@ =~= old(out)@ + enc_u32(wins_v.len() as u32) + enc_window_list(
                wins_v.take(i + 1),
            ));
        }
    }
    assert(wins_v.take(wins_v.len() as int) =~= wins_v);
    assert(out@ =~= old(out)@ + enc_layout(l@));
}

/// Byte-sum checksum of `v` from position `from` on.
fn checksum_from(v: &Vec<u8>, from: usize) -> (s: u64)
    requires
        from <= v.len(),
    ensures
        s == cksum(v@.skip(from as int)),
{
    let ghost tail = v@.skip(from as int);
    let mut acc: u64 = 0;
    let mut i: usize = from;
    while i < v.len()
        invariant
            from <= i <= v.len(),
            tail == v@.skip(from as int),
            acc == cksum(tail.take(i - from)),
            acc < CKSUM_MOD,
        decreases v.len() - i,
    {
        proof {
            assert(tail.take(i - from + 1).drop_last() =~= tail.take(i - from));
            assert(tail.take(i - from + 1).last() == v@[i as int]);
        }
        acc = (acc + (v[i] as u64)) % CKSUM_MOD;
        i = i + 1;
    }
    assert(tail.take(v@.len() - from) =~= tail);
    acc
}

/// Encodes a record into the stored byte format.
pub fn encode_record(r: &SnapshotRecord) -> (out: Vec<u8>)
    requires
        record_wf(r@),
    ensures
        out@ == enc_record(r@),
{
    let mut payload: Vec<u8> = Vec::new();
    put_bytes(&mut payload, &r.name);
    put_opt_bytes(&mut payload, &r.description);
    put_u64(&mut payload, r.created_at);
    put_layout(&mut payload, &r.layout);
    assert(payload@ =~= enc_payload(r@));
    let sum = checksum_from(&payload, 0);
    assert(payload@.skip(0) =~= payload@);
    proof {
        lemma_cksum_bound(enc_payload(r@));
    }
    let mut out: Vec<u8> = Vec::new();
    put_u32(&mut out, r.schema_version);
    put_u64(&mut out, sum);
    let mut payload_moved = payload;
    out.append(&mut payload_moved);
    assert(out@ =~= enc_record(r@));
    out
}

// ---------------------------------------------------------------------------
// Executable decoder
// ---------------------------------------------------------------------------

/// View of a pane vector.
pub open spec fn panes_view(v: Seq<PaneNode>) -> Seq<PaneV> {
    v.map_values(|p: PaneNode| p@)
}

/// View of a tab vector.
pub open spec fn tabs_view(v: Seq<TabLayout>) -> Seq<TabV> {
    v.map_values(|t: TabLayout| t@)
}

/// View of a window vector.
pub open spec fn windows_view(v: Seq<WindowLayout>) -> Seq<WindowV> {
    v.map_values(|w: WindowLayout| w@)
}

fn read_u32(bytes: &Vec<u8>, pos: usize) -> (r: Option<(u32, usize)>)
    requires
        pos <= bytes.len(),
    ensures
        match r {
            Some(v) => pos <= v.1 <= bytes@.len() && dec_u32(bytes@.skip(pos as int)) == Some(
                (v.0, bytes@.skip(v.1 as int)),
            ),
            None => dec_u32(bytes@.skip(pos as int)) is None,
        },
{
    if bytes.len() - pos >= 4 {
        let b0 = bytes[pos];
        let b1 = bytes[pos + 1];
        let b2 = bytes[pos + 2];
        let b3 = bytes[pos + 3];
        let n = (b0 as u32) | ((b1 as u32) << 8) | ((b2 as u32) << 16) | ((b3 as u32) << 24);
        proof {
            let s = bytes@.skip(pos as int);
            assert(s[0] == b0 && s[1] == b1 && s[2] == b2 && s[3] == b3);
            assert(s.skip(4) =~= bytes@.skip(pos + 4));
        }
        Some((n, pos + 4))
    } else {
        None
    }
}

fn read_u64(bytes: &Vec<u8>, pos: usize) -> (r: Option<(u64, usize)>)
    requires
        pos <= bytes.len(),
    ensures
        match r {
            Some(v) => pos <= v.1 <= bytes@.len() && dec_u64(bytes@.skip(pos as int)) == Some(
                (v.0, bytes@.skip(v.1 as int)),
            ),
            None => dec_u64(bytes@.skip(pos as int)) is None,
        },
{
    if bytes.len() - pos >= 8 {
        let b0 = bytes[pos];
        let b1 = bytes[pos + 1];
        let b2 = bytes[pos + 2];
        let b3 = bytes[pos + 3];
        let b4 = bytes[pos + 4];
        let b5 = bytes[pos + 5];
        let b6 = bytes[pos + 6];
        let b7 = bytes[pos + 7];
        let n = (b0 as u64) | ((b1 as u64) << 8) | ((b2 as u64) << 16) | ((b3 as u64) << 24) | ((b4
            as u64) << 32) | ((b5 as u64) << 40) | ((b6 as u64) << 48) | ((b7 as u64) << 56);
        proof {
            let s = bytes@.skip(pos as int);
            assert(s[0] == b0 && s[1] == b1 && s[2] == b2 && s[3] == b3);
            assert(s[4] == b4 && s[5] == b5 && s[6] == b6 && s[7] == b7);
            assert(s.skip(8) =~= bytes@.skip(pos + 8));
        }
        Some((n, pos + 8))
    } else {
        None
    }
}

fn read_bytes(bytes: &Vec<u8>, pos: usize) -> (r: Option<(Vec<u8>, usize)>)
    requires
        pos <= bytes.len(),
    ensures
        match r {
            Some(v) => pos <= v.1 <= bytes@.len() && dec_bytes(bytes@.skip(pos as int)) == Some(
                (v.0@, bytes@.skip(v.1 as int)),
            ),
            None => dec_bytes(bytes@.skip(pos as int)) is None,
        },
{
    match read_u32(bytes, pos) {
        None => None,
        Some((n, p1)) => {
            let need = n as usize;
            if bytes.len() - p1 >= need {
                let mut out: Vec<u8> = Vec::new();
                let mut i: usize = 0;
                while i < need
                    invariant
                        p1 + need <= bytes.len(),
                        i <= need,
                        out@ == bytes@.subrange(p1 as int, p1 + i),
                    decreases need - i,
                {
                    out.push(bytes[p1 + i]);
                    assert(out@ =~= bytes@.subrange(p1 as int, p1 + i + 1));
                    i = i + 1;
                }
                proof {
                    let r1 = bytes@.skip(p1 as int);
                    assert(r1.take(n as int) =~= bytes@.subrange(p1 as int, p1 + need));
                    assert(r1.skip(n as int) =~= bytes@.skip(p1 + need));
                }
                Some((out, p1 + need))
            } else {
                None
            }
        },
    }
}

fn read_opt_bytes(bytes: &Vec<u8>, pos: usize) -> (r: Option<(Option<Vec<u8>>, usize)>)
    requires
        pos <= bytes.len(),
    ensures
        match r {
            Some(v) => pos <= v.1 <= bytes@.len() && dec_opt_bytes(bytes@.skip(pos as int))
                == Some(
                (
                    match v.0 {
                        None => None,
                        Some(b) => Some(b@),
                    },
                    bytes@.skip(v.1 as int),
                ),
            ),
            None => dec_opt_bytes(bytes@.skip(pos as int)) is None,
        },
{
    if pos >= bytes.len() {
        return None;
    }
    let tag = bytes[pos];
    proof {
        assert(bytes@.skip(pos as int)[0] == tag);
        assert(bytes@.skip(pos as int).skip(1) =~= bytes@.skip(pos + 1));
    }
    if tag == 0 {
        Some((None, pos + 1))
    } else if tag == 1 {
        match read_bytes(bytes, pos + 1) {
            None => None,
            Some((v, p2)) => Some((Some(v), p2)),
        }
    } else {
        None
    }
}

fn read_pane(bytes: &Vec<u8>, pos: usize) -> (r: Option<(PaneNode, usize)>)
    requires
        pos <= bytes.len(),
    ensures
        match r {
            Some(v) => pos <= v.1 <= bytes@.len() && dec_pane(bytes@.skip(pos as int)) == Some(
                (v.0@, bytes@.skip(v.1 as int)),
            ),
            None => dec_pane(bytes@.skip(pos as int)) is None,
        },
{
    if pos >= bytes.len() {
        return None;
    }
    let tag = bytes[pos];
    proof {
        assert(bytes@.skip(pos as int)[0] == tag);
        assert(bytes@.skip(pos as int).skip(1) =~= bytes@.skip(pos + 1));
    }
    if tag == 0 {
        match read_bytes(bytes, pos + 1) {
            None => None,
            Some((cwd, p1)) => match read_opt_bytes(bytes, p1) {
                None => None,
                Some((command, p2)) => Some((PaneNode::Leaf { cwd, command }, p2)),
            },
        }
    } else if tag == 1 {
        if bytes.len() - (pos + 1) < 1 {
            return None;
        }
        let hb = bytes[pos + 1];
        proof {
            assert(bytes@.skip(pos as int)[1] == hb);
        }
        if hb > 1 {
            return None;
        }
        let horizontal = hb == 1;
        proof {
            assert(bytes@.skip(pos as int).skip(2) =~= bytes@.skip(pos + 2));
        }
        match read_u32(bytes, pos + 2) {
            None => None,
            Some((ratio_permille, p1)) => match read_u32(bytes, p1) {
                None => None,
                Some((first32, p2)) => match read_u32(bytes, p2) {
                    None => None,
                    Some((second32, p3)) => {
                        let node = PaneNode::Split {
                            horizontal,
                            ratio_permille,
                            first: first32 as usize,
                            second: second32 as usize,
                        };
                        Some((node, p3))
                    },
                },
            },
        }
    } else {
        None
    }
}

fn read_tab(bytes: &Vec<u8>, pos: usize) -> (r: Option<(TabLayout, usize)>)
    requires
        pos <= bytes.len(),
    ensures
        match r {
            Some(v) => pos <= v.1 <= bytes@.len() && dec_tab(bytes@.skip(pos as int)) == Some(
                (v.0@, bytes@.skip(v.1 as int)),
            ),
            None => dec_tab(bytes@.skip(pos as int)) is None,
        },
{
    match read_u32(bytes, pos) {
        None => None,
        Some((n, p1)) => {
            let mut panes: Vec<PaneNode> = Vec::new();
            let mut cur: usize = p1;
            let mut k: u32 = 0;
            while k < n
                invariant
                    pos <= p1 <= cur <= bytes.len(),
                    k <= n,
                    panes@.len() == k,
                    dec_u32(bytes@.skip(pos as int)) == Some((n, bytes@.skip(p1 as int))),
                    dec_pane_list(bytes@.skip(p1 as int), n as nat) == (match dec_pane_list(
                        bytes@.skip(cur as int),
                        (n - k) as nat,
                    ) {
                        None => None::<(Seq<PaneV>, Seq<u8>)>,
                        Some((s2, r2)) => Some((panes_view(panes@) + s2, r2)),
                    }),
                decreases n - k,
            {
                match read_pane(bytes, cur) {
                    None => {
                        return None;
                    },
                    Some((p, c2)) => {
                        proof {
                            let ghost old_mapped = panes_view(panes@);
                            let ghost tail_d = dec_pane_list(
                                bytes@.skip(c2 as int),
                                (n - k - 1) as nat,
                            );
                            match tail_d {
                                None => {},
                                Some((s2, r2)) => {
                                    assert(old_mapped + (seq![p@] + s2) =~= (old_mapped.push(p@))
                                        + s2);
                                },
                            }
                        }
                        let ghost old_panes = panes@;
                        panes.push(p);
                        proof {
                            assert(panes_view(panes@) =~= panes_view(old_panes).push(p@));
                        }
                        cur = c2;
                        k = k + 1;
                    },
                }
            }
            proof {
                assert(dec_pane_list(bytes@.skip(cur as int), 0) == Some(
                    (Seq::<PaneV>::empty(), bytes@.skip(cur as int)),
                ));
                assert(panes_view(panes@) + Seq::<PaneV>::empty() =~= panes_view(panes@));
            }
            Some((TabLayout { panes }, cur))
        },
    }
}

fn read_window(bytes: &Vec<u8>, pos: usize) -> (r: Option<(WindowLayout, usize)>)
    requires
        pos <= bytes.len(),
    ensures
        match r {
            Some(v) => pos <= v.1 <= bytes@.len() && dec_window(bytes@.skip(pos as int)) == Some(
                (v.0@, bytes@.skip(v.1 as int)),
            ),
            None => dec_window(bytes@.skip(pos as int)) is None,
        },
{
    match read_u32(bytes, pos) {
        None => None,
        Some((n, p1)) => {
            let mut tabs: Vec<TabLayout> = Vec::new();
            let mut cur: usize = p1;
            let mut k: u32 = 0;
            while k < n
                invariant
                    pos <= p1 <= cur <= bytes.len(),
                    k <= n,
                    tabs@.len() == k,
                    dec_u32(bytes@.skip(pos as int)) == Some((n, bytes@.skip(p1 as int))),
                    dec_tab_list(bytes@.skip(p1 as int), n as nat) == (match dec_tab_list(
                        bytes@.skip(cur as int),
                        (n - k) as nat,
                    ) {
                        None => None::<(Seq<TabV>, Seq<u8>)>,
                        Some((s2, r2)) => Some((tabs_view(tabs@) + s2, r2)),
                    }),
                decreases n - k,
            {
                match read_tab(bytes, cur) {
                    None => {
                        return None;
                    },
                    Some((t, c2)) => {
                        proof {
                            let ghost old_mapped = tabs_view(tabs@);
                            let ghost tail_d = dec_tab_list(
                                bytes@.skip(c2 as int),
                                (n - k - 1) as nat,
                            );
                            match tail_d {
                                None => {},
                                Some((s2, r2)) => {
                                    assert(old_mapped + (seq![t@] + s2) =~= (old_mapped.push(t@))
                                        + s2);
                                },
                            }
                        }
                        let ghost old_tabs = tabs@;
                        tabs.push(t);
                        proof {
                            assert(tabs_view(tabs@) =~= tabs_view(old_tabs).push(t@));
                        }
                        cur = c2;
                        k = k + 1;
                    },
                }
            }
            proof {
                assert(dec_tab_list(bytes@.skip(cur as int), 0) == Some(
                    (Seq::<TabV>::empty(), bytes@.skip(cur as int)),
                ));
                assert(tabs_view(tabs@) + Seq::<TabV>::empty() =~= tabs_view(tabs@));
            }
            Some((WindowLayout { tabs }, cur))
        },
    }
}

fn read_layout(bytes: &Vec<u8>, pos: usize) -> (r: Option<(WorkspaceLayout, usize)>)
    requires
        pos <= bytes.len(),
    ensures
        match r {
            Some(v) => pos <= v.1 <= bytes@.len() && dec_layout(bytes@.skip(pos as int)) == Some(
                (v.0@, bytes@.skip(v.1 as int)),
            ),
            None => dec_layout(bytes@.skip(pos as int)) is None,
        },
{
    match read_u32(bytes, pos) {
        None => None,
        Some((n, p1)) => {
            let mut windows: Vec<WindowLayout> = Vec::new();
            let mut cur: usize = p1;
            let mut k: u32 = 0;
            while k < n
                invariant
                    pos <= p1 <= cur <= bytes.len(),
                    k <= n,
                    windows@.len() == k,
                    dec_u32(bytes@.skip(pos as int)) == Some((n, bytes@.skip(p1 as int))),
                    dec_window_list(bytes@.skip(p1 as int), n as nat) == (match dec_window_list(
                        bytes@.skip(cur as int),
                        (n - k) as nat,
                    ) {
                        None => None::<(Seq<WindowV>, Seq<u8>)>,
                        Some((s2, r2)) => Some((windows_view(windows@) + s2, r2)),
                    }),
                decreases n - k,
            {
                match read_window(bytes, cur) {
                    None => {
                        return None;
                    },
                    Some((w, c2)) => {
                        proof {
                            let ghost old_mapped = windows_view(windows@);
                            let ghost tail_d = dec_window_list(
                                bytes@.skip(c2 as int),
                                (n - k - 1) as nat,
                            );
                            match tail_d {
                                None => {},
                                Some((s2, r2)) => {
                                    assert(old_mapped + (seq![w@] + s2) =~= (old_mapped.push(w@))
                                        + s2);
                                },
                            }
                        }
                        let ghost old_windows = windows@;
                        windows.push(w);
                        proof {
                            assert(windows_view(windows@) =~= windows_view(old_windows).push(w@));
                        }
                        cur = c2;
                        k = k + 1;
                    },
                }
            }
            proof {
                assert(dec_window_list(bytes@.skip(cur as int), 0) == Some(
                    (Seq::<WindowV>::empty(), bytes@.skip(cur as int)),
                ));
                assert(windows_view(windows@) + Seq::<WindowV>::empty() =~= windows_view(
                    windows@,
                ));
            }
            Some((WorkspaceLayout { windows }, cur))
        },
    }
}

/// Decodes one stored byte string into a record, reporting exactly why a
/// failing one fails: an unreadable or unknown version, or any other
/// mismatch as corruption.
pub fn parse_record(bytes: &Vec<u8>) -> (r: Result<SnapshotRecord, StoreError>)
    ensures
        r matches Ok(rec) ==> dec_record(bytes@) == Some(rec@),
        r matches Err(e) ==> dec_record(bytes@) is None && e == parse_err(bytes@),
{
    proof {
        assert(bytes@.skip(0) =~= bytes@);
    }
    let (version, p1) = match read_u32(bytes, 0) {
        None => {
            return Err(StoreError::Corrupt);
        },
        Some(v) => v,
    };
    if version > SCHEMA_VERSION {
        return Err(StoreError::UnsupportedVersion);
    }
    let (sum, p2) = match read_u64(bytes, p1) {
        None => {
            return Err(StoreError::Corrupt);
        },
        Some(v) => v,
    };
    let actual = checksum_from(bytes, p2);
    proof {
        lemma_cksum_bound(bytes@.skip(p2 as int));
    }
    if sum != actual {
        return Err(StoreError::Corrupt);
    }
    let (name, p3) = match read_bytes(bytes, p2) {
        None => {
            return Err(StoreError::Corrupt);
        },
        Some(v) => v,
    };
    let (description, p4) = match read_opt_bytes(bytes, p3) {
        None => {
            return Err(StoreError::Corrupt);
        },
        Some(v) => v,
    };
    let (created_at, p5) = match read_u64(bytes, p4) {
        None => {
            return Err(StoreError::Corrupt);
        },
        Some(v) => v,
    };
    let (layout, p6) = match read_layout(bytes, p5) {
        None => {
            return Err(StoreError::Corrupt);
        },
        Some(v) => v,
    };
    if p6 != bytes.len() {
        proof {
            assert(bytes@.skip(p6 as int).len() != 0);
        }
        return Err(StoreError::Corrupt);
    }
    proof {
        assert(bytes@.skip(p6 as int).len() == 0);
    }
    Ok(
        SnapshotRecord {
            name,
            description,
            created_at,
            schema_version: version,
            layout,
        },
    )
}

} // verus!
