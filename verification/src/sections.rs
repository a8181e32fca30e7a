//! What the last frame's top-level profiler scopes cost, summed per scope name.
//!
//! The recorded streams are read with puffin's own parser and the scope names come
//! from puffin's scope collection; the per-name totals are computed here.

use vstd::prelude::*;
use vstd::bytes::{spec_u32_from_le_bytes, spec_u64_from_le_bytes, u32_from_le_bytes, u64_from_le_bytes};

verus! {

/// Declares puffin's registry of scope details, so that it can be handed through.
#[verifier::external_type_specification]
#[verifier::external_body]
pub struct ExScopeCollection(puffin::ScopeCollection);

/// The top-level scopes that puffin's stream parser reads out of a stream's bytes,
/// each as (scope id, duration in nanoseconds); `None` where the parser reports an
/// error.
pub uninterp spec fn puffin_top_scopes(stream: Seq<u8>) -> Option<Seq<(u32, i64)>>;

/// The name that a scope collection gives each scope id it has registered.
pub uninterp spec fn scope_names(collection: puffin::ScopeCollection) -> Map<u32, Seq<char>>;

/// The little-endian `u32` at byte `at` of `data`.
pub open spec fn le_u32_at(data: Seq<u8>, at: int) -> u32 {
    spec_u32_from_le_bytes(data.subrange(at, at + 4))
}

/// The little-endian `u64` at byte `at` of `data`.
pub open spec fn le_u64_at(data: Seq<u8>, at: int) -> u64 {
    spec_u64_from_le_bytes(data.subrange(at, at + 8))
}

/// The little-endian `i64` at byte `at` of `data`.
pub open spec fn le_i64_at(data: Seq<u8>, at: int) -> i64 {
    le_u64_at(data, at) as i64
}

/// Reading the top-level scopes of a profiler stream from byte `at` on never
/// overflows: puffin's reader walks the scopes in the layout it writes them
/// (`(`, a `u32` scope id, an `i64` start, a length-prefixed string, a `u64`
/// size of the children, the children, `)`, an `i64` stop), and neither the end of
/// a scope's children (its start plus its size, as a `u64`) nor a scope's duration
/// (stop minus start, as an `i64`) is out of range. Where the reader stops with an
/// error, or at the end of the scopes, nothing more is read.
pub open spec fn scopes_read_safely(data: Seq<u8>, at: int) -> bool
    decreases data.len() - at,
{
    if at < 0 || at >= data.len() || data[at] != 40u8 {
        true
    } else if at + 5 > data.len() || le_u32_at(data, at + 1) == 0 {
        true
    } else if at + 14 > data.len() {
        true
    } else {
        let start = le_i64_at(data, at + 5);
        let name_end = at + 14 + data[at + 13];
        if name_end + 8 > data.len() {
            true
        } else {
            let size = le_u64_at(data, name_end);
            let close = name_end + 8 + size;
            if size == u64::MAX {
                true
            } else if close > u64::MAX {
                false
            } else if close >= data.len() || data[close] != 41u8 || close + 9 > data.len() {
                true
            } else {
                let stop = le_i64_at(data, close + 1);
                if stop < start {
                    true
                } else if stop - start > i64::MAX {
                    false
                } else {
                    scopes_read_safely(data, close + 9)
                }
            }
        }
    }
}

/// A profiler stream that puffin's reader reads without overflow.
pub open spec fn stream_reads_safely(stream: Seq<u8>) -> bool {
    scopes_read_safely(stream, 0)
}

/// The little-endian `u32` at byte `at` of `data`.
fn u32_at(data: &[u8], at: usize) -> (v: u32)
    requires
        at + 4 <= data.len(),
    ensures
        v == le_u32_at(data@, at as int),
{
    let chunk: Vec<u8> = vec![data[at], data[at + 1], data[at + 2], data[at + 3]];
    assert(chunk@ =~= data@.subrange(at as int, at + 4));
    u32_from_le_bytes(chunk.as_slice())
}

/// The little-endian `u64` at byte `at` of `data`.
fn u64_at(data: &[u8], at: usize) -> (v: u64)
    requires
        at + 8 <= data.len(),
    ensures
        v == le_u64_at(data@, at as int),
{
    let chunk: Vec<u8> = vec![
        data[at],
        data[at + 1],
        data[at + 2],
        data[at + 3],
        data[at + 4],
        data[at + 5],
        data[at + 6],
        data[at + 7],
    ];
    assert(chunk@ =~= data@.subrange(at as int, at + 8));
    u64_from_le_bytes(chunk.as_slice())
}

/// Whether puffin's reader reads the top-level scopes of `stream` without
/// overflow; streams that puffin records itself always are.
pub fn reads_safely(stream: &[u8]) -> (ok: bool)
    ensures
        ok == stream_reads_safely(stream@),
{
    let len = stream.len();
    let mut at: usize = 0;
    while at < len
        invariant
            at <= len,
            len == stream@.len(),
            stream_reads_safely(stream@) == scopes_read_safely(stream@, at as int),
        decreases len - at,
    {
        if stream[at] != 40u8 {
            return true;
        }
        if len - at < 5 {
            return true;
        }
        if u32_at(stream, at + 1) == 0 {
            return true;
        }
        if len - at < 14 {
            return true;
        }
        let start = u64_at(stream, at + 5) as i64;
        let name_len = stream[at + 13] as usize;
        if len - (at + 14) < name_len + 8 {
            return true;
        }
        let name_end = at + 14 + name_len;
        let size = u64_at(stream, name_end);
        if size == u64::MAX {
            return true;
        }
        let children = (name_end + 8) as u64;
        let close = match children.checked_add(size) {
            Some(close) => close,
            None => {
                return false;
            },
        };
        if close >= len as u64 {
            return true;
        }
        let close = close as usize;
        if stream[close] != 41u8 || len - close < 9 {
            return true;
        }
        let stop = u64_at(stream, close + 1) as i64;
        if stop < start {
            return true;
        }
        if (stop as i128) - (start as i128) > i64::MAX as i128 {
            return false;
        }
        at = close + 9;
    }
    true
}

/// Calls `puffin::Reader::from_start(..).read_top_scopes()` on a stream made of
/// `stream`'s bytes. Only streams that the reader reads without overflow are
/// admitted (`stream_reads_safely`); on others its position or duration
/// arithmetic overflows. The contract claims that the result is puffin's parse of
/// those bytes (a function of the bytes alone) with each scope taken as its id and
/// its `record.duration_ns`; that every id is non-zero (puffin's `ScopeId` wraps a
/// `NonZeroU32`); and that no duration is negative (puffin rejects a stop before
/// the start, and the admitted streams keep stop minus start in range).
#[verifier::external_body]
fn read_top_scopes(stream: &[u8]) -> (scopes: Option<Vec<(u32, i64)>>)
    requires
        stream_reads_safely(stream@),
    ensures
        match scopes {
            Some(v) => puffin_top_scopes(stream@) == Some(v@),
            None => puffin_top_scopes(stream@) is None,
        },
        scopes matches Some(v) ==> forall|i: int|
            0 <= i < v.len() ==> (#[trigger] v[i]).0 != 0 && v[i].1 >= 0,
{
    let stream = puffin::Stream::from(stream.to_vec());
    match puffin::Reader::from_start(&stream).read_top_scopes() {
        Ok(scopes) => Some(scopes.iter().map(|s| (s.id.0.get(), s.record.duration_ns)).collect()),
        Err(_) => None,
    }
}

/// Calls `puffin::ScopeCollection::fetch_by_id` and, where it finds the scope's
/// details, their `name()`. The contract claims that the answer is the name the
/// collection holds for `id`, and `None` exactly when it holds none.
#[verifier::external_body]
fn scope_name(collection: &puffin::ScopeCollection, id: u32) -> (name: Option<String>)
    requires
        id != 0,
    ensures
        match name {
            Some(n) => scope_names(*collection).contains_key(id) && n@ == scope_names(
                *collection,
            )[id],
            None => !scope_names(*collection).contains_key(id),
        },
{
    let id = puffin::ScopeId(std::num::NonZeroU32::new(id).unwrap());
    match collection.fetch_by_id(&id) {
        Some(details) => Some(details.name().to_string()),
        None => None,
    }
}

/// The name a section gets when its scope id is unknown to the collection.
pub open spec fn unknown_name() -> Seq<char> {
    "unknown"@
}

/// `a + b`, clamped to the range of `i64`.
pub open spec fn sat_add(a: i64, b: i64) -> i64 {
    if a + b > i64::MAX {
        i64::MAX
    } else if a + b < i64::MIN {
        i64::MIN
    } else {
        (a + b) as i64
    }
}

/// Sections as text and nanoseconds.
pub open spec fn sections_view(sections: Seq<(String, i64)>) -> Seq<(Seq<char>, i64)> {
    sections.map_values(|s: (String, i64)| (s.0@, s.1))
}

/// Entry `i` of `sections` is named `name`.
pub open spec fn named_at(sections: Seq<(Seq<char>, i64)>, name: Seq<char>, i: int) -> bool {
    0 <= i < sections.len() && sections[i].0 == name
}

/// Some entry of `sections` is named `name`.
pub open spec fn has_name(sections: Seq<(Seq<char>, i64)>, name: Seq<char>) -> bool {
    exists|i: int| named_at(sections, name, i)
}

/// The first entry of `sections` named `name`.
pub open spec fn first_named(sections: Seq<(Seq<char>, i64)>, name: Seq<char>) -> int {
    choose|i: int|
        named_at(sections, name, i) && forall|j: int| 0 <= j < i ==> !named_at(sections, name, j)
}

/// A scope of `ns` nanoseconds named `name`, added to the sections: its time joins
/// the first section of that name, or it opens a new section at the end.
pub open spec fn added(sections: Seq<(Seq<char>, i64)>, name: Seq<char>, ns: i64) -> Seq<
    (Seq<char>, i64),
> {
    if has_name(sections, name) {
        let i = first_named(sections, name);
        sections.update(i, (name, sat_add(sections[i].1, ns)))
    } else {
        sections.push((name, ns))
    }
}

/// The sections that a list of (name, nanoseconds) scopes adds up to.
pub open spec fn totals(scopes: Seq<(Seq<char>, i64)>) -> Seq<(Seq<char>, i64)>
    decreases scopes.len(),
{
    if scopes.len() == 0 {
        Seq::empty()
    } else {
        added(totals(scopes.drop_last()), scopes.last().0, scopes.last().1)
    }
}

/// Scopes given by id, with their names looked up (`"unknown"` for ids without one).
pub open spec fn named_scopes(names: Map<u32, Seq<char>>, scopes: Seq<(u32, i64)>) -> Seq<
    (Seq<char>, i64),
> {
    scopes.map_values(
        |s: (u32, i64)|
            (if names.contains_key(s.0) {
                names[s.0]
            } else {
                unknown_name()
            }, s.1),
    )
}

/// The named top-level scopes of one stream; none when the stream does not parse.
pub open spec fn stream_scopes(names: Map<u32, Seq<char>>, stream: Seq<u8>) -> Seq<
    (Seq<char>, i64),
> {
    match puffin_top_scopes(stream) {
        Some(scopes) => named_scopes(names, scopes),
        None => Seq::empty(),
    }
}

/// The named top-level scopes of all streams, stream after stream.
pub open spec fn frame_scopes(names: Map<u32, Seq<char>>, streams: Seq<Seq<u8>>) -> Seq<
    (Seq<char>, i64),
>
    decreases streams.len(),
{
    if streams.len() == 0 {
        Seq::empty()
    } else {
        frame_scopes(names, streams.drop_last()) + stream_scopes(names, streams.last())
    }
}

/// Every stream is read without overflow.
pub open spec fn all_read_safely(streams: Seq<Seq<u8>>) -> bool {
    forall|k: int| 0 <= k < streams.len() ==> stream_reads_safely(#[trigger] streams[k])
}

/// The bytes of each stream.
pub open spec fn streams_view(streams: Seq<Vec<u8>>) -> Seq<Seq<u8>> {
    streams.map_values(|s: Vec<u8>| s@)
}

/// `a + b` clamped to `i64`, computed.
fn saturating_add_i64(a: i64, b: i64) -> (r: i64)
    ensures
        r == sat_add(a, b),
{
    match a.checked_add(b) {
        Some(r) => r,
        None => {
            if b > 0 {
                i64::MAX
            } else {
                i64::MIN
            }
        },
    }
}

/// The first section named `name`, if any.
fn find_section(sections: &Vec<(String, i64)>, name: &String) -> (found: Option<usize>)
    ensures
        match found {
            Some(i) => i < sections.len() && has_name(sections_view(sections@), name@)
                && first_named(sections_view(sections@), name@) == i,
            None => !has_name(sections_view(sections@), name@),
        },
{
    let ghost s = sections_view(sections@);
    let mut i: usize = 0;
    while i < sections.len()
        invariant
            i <= sections.len(),
            s == sections_view(sections@),
            forall|j: int| 0 <= j < i ==> !named_at(s, name@, j),
        decreases sections.len() - i,
    {
        if sections[i].0 == *name {
            proof {
                assert(named_at(s, name@, i as int));
                let k = first_named(s, name@);
                assert(named_at(s, name@, k) && forall|j: int|
                    0 <= j < k ==> !named_at(s, name@, j));
                assert(k == i);
            }
            return Some(i);
        }
        i = i + 1;
    }
    None
}

/// Adds a scope of `ns` nanoseconds named `name` to `sections`: its time joins the
/// first section with that name, or a new section is appended for it.
pub fn add_section(sections: &mut Vec<(String, i64)>, name: String, ns: i64)
    ensures
        sections_view(final(sections)@) == added(sections_view(old(sections)@), name@, ns),
{
    let ghost s = sections_view(sections@);
    match find_section(sections, &name) {
        Some(i) => {
            let total = saturating_add_i64(sections[i].1, ns);
            sections.set(i, (name, total));
            proof {
                assert(sections_view(sections@) =~= s.update(i as int, (name@, total)));
            }
        },
        None => {
            let ghost before = sections@;
            sections.push((name, ns));
            proof {
                assert(sections_view(sections@) =~= sections_view(before).push((name@, ns)));
            }
        },
    }
}

/// Appends the named top-level scopes of one stream to `scopes`, the stream's
/// bytes parsed by puffin and the names looked up in `collection`.
fn append_stream_scopes(
    scopes: &mut Vec<(String, i64)>,
    collection: &puffin::ScopeCollection,
    stream: &[u8],
)
    requires
        stream_reads_safely(stream@),
    ensures
        sections_view(final(scopes)@) == sections_view(old(scopes)@) + stream_scopes(
            scope_names(*collection),
            stream@,
        ),
        no_negative(sections_view(old(scopes)@)) ==> no_negative(sections_view(final(scopes)@)),
{
    let ghost names = scope_names(*collection);
    let ghost before = sections_view(scopes@);
    let parsed = match read_top_scopes(stream) {
        Some(parsed) => parsed,
        None => {
            proof {
                assert(before + stream_scopes(names, stream@) =~= before);
            }
            return;
        },
    };
    let ghost all = stream_scopes(names, stream@);
    let mut j: usize = 0;
    while j < parsed.len()
        invariant
            j <= parsed.len(),
            puffin_top_scopes(stream@) == Some(parsed@),
            forall|i: int| 0 <= i < parsed.len() ==> (#[trigger] parsed@[i]).0 != 0 && parsed@[i].1 >= 0,
            no_negative(before) ==> no_negative(sections_view(scopes@)),
            all == named_scopes(names, parsed@),
            names == scope_names(*collection),
            sections_view(scopes@) =~= before + all.subrange(0, j as int),
        decreases parsed.len() - j,
    {
        let (id, ns) = parsed[j];
        let name = match scope_name(collection, id) {
            Some(n) => n,
            None => "unknown".to_owned(),
        };
        let ghost prev = scopes@;
        scopes.push((name, ns));
        proof {
            assert(sections_view(scopes@) =~= sections_view(prev).push((name@, ns)));
            assert(all.subrange(0, j + 1) =~= all.subrange(0, j as int).push(all[j as int]));
        }
        j = j + 1;
    }
    proof {
        assert(all.subrange(0, j as int) =~= all);
    }
}

/// The named top-level scopes of all of a frame's thread streams, stream after
/// stream.
fn frame_scope_list(collection: &puffin::ScopeCollection, streams: &Vec<Vec<u8>>) -> (scopes: Vec<
    (String, i64),
>)
    requires
        all_read_safely(streams_view(streams@)),
    ensures
        sections_view(scopes@) == frame_scopes(scope_names(*collection), streams_view(streams@)),
        no_negative(sections_view(scopes@)),
{
    let ghost names = scope_names(*collection);
    let ghost all = streams_view(streams@);
    let mut scopes: Vec<(String, i64)> = Vec::new();
    proof {
        assert(sections_view(scopes@) =~= Seq::<(Seq<char>, i64)>::empty());
    }
    let mut k: usize = 0;
    while k < streams.len()
        invariant
            k <= streams.len(),
            all == streams_view(streams@),
            names == scope_names(*collection),
            sections_view(scopes@) == frame_scopes(names, all.subrange(0, k as int)),
            all_read_safely(all),
            no_negative(sections_view(scopes@)),
        decreases streams.len() - k,
    {
        assert(stream_reads_safely(all[k as int]));
        append_stream_scopes(&mut scopes, collection, streams[k].as_slice());
        proof {
            let next = all.subrange(0, k + 1);
            assert(next.drop_last() =~= all.subrange(0, k as int));
            assert(next.last() == streams@[k as int]@);
        }
        k = k + 1;
    }
    proof {
        assert(all.subrange(0, k as int) =~= all);
    }
    scopes
}

/// Sums (name, nanoseconds) scopes per name, in the order in which each name
/// first occurs.
pub fn sum_sections(scopes: &Vec<(String, i64)>) -> (sections: Vec<(String, i64)>)
    ensures
        sections_view(sections@) == totals(sections_view(scopes@)),
{
    let ghost all = sections_view(scopes@);
    let mut sections: Vec<(String, i64)> = Vec::new();
    proof {
        assert(sections_view(sections@) =~= Seq::<(Seq<char>, i64)>::empty());
        assert(all.subrange(0, 0) =~= Seq::<(Seq<char>, i64)>::empty());
    }
    let mut j: usize = 0;
    while j < scopes.len()
        invariant
            j <= scopes.len(),
            all == sections_view(scopes@),
            sections_view(sections@) == totals(all.subrange(0, j as int)),
        decreases scopes.len() - j,
    {
        let name = scopes[j].0.clone();
        let ns = scopes[j].1;
        add_section(&mut sections, name, ns);
        proof {
            let next = all.subrange(0, j + 1);
            assert(next.drop_last() =~= all.subrange(0, j as int));
            assert(next.last() == all[j as int]);
        }
        j = j + 1;
    }
    proof {
        assert(all.subrange(0, j as int) =~= all);
    }
    sections
}

/// Sums the top-level scopes of a frame's thread streams per scope name, in the
/// order in which each name first occurs; streams that do not parse add nothing.
pub fn collect_sections(collection: &puffin::ScopeCollection, streams: &Vec<Vec<u8>>) -> (sections:
    Vec<(String, i64)>)
    requires
        all_read_safely(streams_view(streams@)),
    ensures
        no_negative(frame_scopes(scope_names(*collection), streams_view(streams@))),
        sections_view(sections@) == totals(
            frame_scopes(scope_names(*collection), streams_view(streams@)),
        ),
{
    let scopes = frame_scope_list(collection, streams);
    sum_sections(&scopes)
}

proof fn lemma_minimal_named(s: Seq<(Seq<char>, i64)>, name: Seq<char>, k: int)
    requires
        named_at(s, name, k),
    ensures
        exists|m: int|
            named_at(s, name, m) && forall|j: int| 0 <= j < m ==> !named_at(s, name, j),
    decreases k,
{
    if exists|j: int| 0 <= j < k && named_at(s, name, j) {
        let j = choose|j: int| 0 <= j < k && named_at(s, name, j);
        lemma_minimal_named(s, name, j);
    } else {
        assert(named_at(s, name, k) && forall|j: int| 0 <= j < k ==> !named_at(s, name, j));
    }
}

/// The first section of a name that occurs is named so, and none before it is.
pub proof fn lemma_first_named(s: Seq<(Seq<char>, i64)>, name: Seq<char>)
    requires
        has_name(s, name),
    ensures
        named_at(s, name, first_named(s, name)),
        forall|j: int| 0 <= j < first_named(s, name) ==> !named_at(s, name, j),
{
    let k = choose|k: int| named_at(s, name, k);
    lemma_minimal_named(s, name, k);
}

/// No two sections share a name.
pub open spec fn distinct_names(sections: Seq<(Seq<char>, i64)>) -> bool {
    forall|i: int, j: int| 0 <= i < j < sections.len() ==> sections[i].0 != sections[j].0
}

/// The nanoseconds of all scopes named `name`.
pub open spec fn sum_named(scopes: Seq<(Seq<char>, i64)>, name: Seq<char>) -> int
    decreases scopes.len(),
{
    if scopes.len() == 0 {
        0
    } else {
        sum_named(scopes.drop_last(), name) + if scopes.last().0 == name {
            scopes.last().1 as int
        } else {
            0
        }
    }
}

/// The nanoseconds of all scopes.
pub open spec fn sum_all(scopes: Seq<(Seq<char>, i64)>) -> int
    decreases scopes.len(),
{
    if scopes.len() == 0 {
        0
    } else {
        sum_all(scopes.drop_last()) + scopes.last().1
    }
}

/// No scope has a negative duration.
pub open spec fn no_negative(scopes: Seq<(Seq<char>, i64)>) -> bool {
    forall|k: int| 0 <= k < scopes.len() ==> (#[trigger] scopes[k]).1 >= 0
}

/// Each name occurs in at most one section.
pub proof fn lemma_totals_distinct(scopes: Seq<(Seq<char>, i64)>)
    ensures
        distinct_names(totals(scopes)),
    decreases scopes.len(),
{
    if scopes.len() > 0 {
        let prefix = scopes.drop_last();
        lemma_totals_distinct(prefix);
        let t = totals(prefix);
        let name = scopes.last().0;
        if has_name(t, name) {
            lemma_first_named(t, name);
            let p = first_named(t, name);
            let u = totals(scopes);
            assert forall|i: int, j: int| 0 <= i < j < u.len() implies u[i].0 != u[j].0 by {
                assert(u[i].0 == t[i].0);
                assert(u[j].0 == t[j].0);
            }
        } else {
            let u = totals(scopes);
            assert forall|i: int, j: int| 0 <= i < j < u.len() implies u[i].0 != u[j].0 by {
                if j == t.len() {
                    assert(!named_at(t, name, i));
                }
            }
        }
    }
}

/// A section of a name exists exactly when some scope has that name.
pub proof fn lemma_totals_names(scopes: Seq<(Seq<char>, i64)>, name: Seq<char>)
    ensures
        has_name(totals(scopes), name) <==> has_name(scopes, name),
    decreases scopes.len(),
{
    if scopes.len() > 0 {
        let prefix = scopes.drop_last();
        lemma_totals_names(prefix, name);
        let t = totals(prefix);
        let u = totals(scopes);
        let last = scopes.last().0;
        if has_name(t, last) {
            lemma_first_named(t, last);
        }
        if has_name(scopes, name) {
            let k = choose|k: int| named_at(scopes, name, k);
            if k == scopes.len() - 1 {
                if has_name(t, last) {
                    let p = first_named(t, last);
                    assert(named_at(u, name, p));
                } else {
                    assert(named_at(u, name, t.len() as int));
                }
            } else {
                assert(named_at(prefix, name, k));
                let i = choose|i: int| named_at(t, name, i);
                assert(named_at(u, name, i));
            }
        }
        if has_name(u, name) {
            let i = choose|i: int| named_at(u, name, i);
            if name == last {
                assert(named_at(scopes, name, scopes.len() - 1));
            } else {
                assert(named_at(t, name, i));
                let k = choose|k: int| named_at(prefix, name, k);
                assert(named_at(scopes, name, k));
            }
        }
    }
}

proof fn lemma_sum_bounds(scopes: Seq<(Seq<char>, i64)>, name: Seq<char>)
    requires
        no_negative(scopes),
    ensures
        0 <= sum_named(scopes, name) <= sum_all(scopes),
        !has_name(scopes, name) ==> sum_named(scopes, name) == 0,
    decreases scopes.len(),
{
    if scopes.len() > 0 {
        let prefix = scopes.drop_last();
        assert(no_negative(prefix)) by {
            assert forall|k: int| 0 <= k < prefix.len() implies (#[trigger] prefix[k]).1 >= 0 by {
                assert(prefix[k] == scopes[k]);
            }
        }
        lemma_sum_bounds(prefix, name);
        assert(scopes[scopes.len() - 1].1 >= 0);
        if !has_name(scopes, name) {
            if has_name(prefix, name) {
                let k = choose|k: int| named_at(prefix, name, k);
                assert(named_at(scopes, name, k));
            }
            assert(!named_at(scopes, name, scopes.len() - 1));
        }
    }
}

/// When no scope is negative and all of them together fit in an `i64`, each
/// section holds exactly the nanoseconds of all scopes with its name.
pub proof fn lemma_totals_sums(scopes: Seq<(Seq<char>, i64)>)
    requires
        no_negative(scopes),
        sum_all(scopes) <= i64::MAX,
    ensures
        forall|i: int|
            0 <= i < totals(scopes).len() ==> (#[trigger] totals(scopes)[i]).1 == sum_named(
                scopes,
                totals(scopes)[i].0,
            ),
    decreases scopes.len(),
{
    if scopes.len() > 0 {
        let prefix = scopes.drop_last();
        let (name, ns) = scopes.last();
        assert(no_negative(prefix)) by {
            assert forall|k: int| 0 <= k < prefix.len() implies (#[trigger] prefix[k]).1 >= 0 by {
                assert(prefix[k] == scopes[k]);
            }
        }
        assert(ns >= 0) by {
            assert(scopes[scopes.len() - 1].1 >= 0);
        }
        lemma_sum_bounds(prefix, name);
        lemma_totals_sums(prefix);
        lemma_totals_distinct(prefix);
        lemma_totals_names(prefix, name);
        let t = totals(prefix);
        let u = totals(scopes);
        if has_name(t, name) {
            lemma_first_named(t, name);
        }
        assert forall|i: int| 0 <= i < u.len() implies (#[trigger] u[i]).1 == sum_named(
            scopes,
            u[i].0,
        ) by {
            if has_name(t, name) {
                let p = first_named(t, name);
                if i == p {
                    assert(t[p].1 == sum_named(prefix, name));
                } else {
                    assert(t[i].0 != t[p].0);
                    assert(t[i].1 == sum_named(prefix, t[i].0));
                }
            } else {
                if i < t.len() {
                    assert(!named_at(t, name, i));
                    assert(t[i].1 == sum_named(prefix, t[i].0));
                }
            }
        }
    }
}

proof fn lemma_sum_all_update(s: Seq<(Seq<char>, i64)>, p: int, entry: (Seq<char>, i64))
    requires
        0 <= p < s.len(),
    ensures
        sum_all(s.update(p, entry)) == sum_all(s) - s[p].1 + entry.1,
    decreases s.len(),
{
    let u = s.update(p, entry);
    if p == s.len() - 1 {
        assert(u.drop_last() =~= s.drop_last());
    } else {
        lemma_sum_all_update(s.drop_last(), p, entry);
        assert(u.drop_last() =~= s.drop_last().update(p, entry));
    }
}

/// When no scope is negative and all of them together fit in an `i64`, the
/// sections together hold exactly the time of all scopes: each scope is counted
/// once.
pub proof fn lemma_totals_conserve(scopes: Seq<(Seq<char>, i64)>)
    requires
        no_negative(scopes),
        sum_all(scopes) <= i64::MAX,
    ensures
        sum_all(totals(scopes)) == sum_all(scopes),
    decreases scopes.len(),
{
    if scopes.len() > 0 {
        let prefix = scopes.drop_last();
        let (name, ns) = scopes.last();
        assert(no_negative(prefix)) by {
            assert forall|k: int| 0 <= k < prefix.len() implies (#[trigger] prefix[k]).1 >= 0 by {
                assert(prefix[k] == scopes[k]);
            }
        }
        assert(ns >= 0) by {
            assert(scopes[scopes.len() - 1].1 >= 0);
        }
        lemma_sum_bounds(prefix, name);
        lemma_totals_conserve(prefix);
        lemma_totals_sums(prefix);
        let t = totals(prefix);
        if has_name(t, name) {
            lemma_first_named(t, name);
            let p = first_named(t, name);
            assert(t[p].1 == sum_named(prefix, name));
            lemma_sum_all_update(t, p, (name, sat_add(t[p].1, ns)));
        } else {
            assert(t.push((name, ns)).drop_last() =~= t);
        }
    }
}

/// A stream's named scopes are puffin's parse of it, scope for scope and in
/// parse order: entry `k` carries the duration of the `k`-th scope puffin read
/// and the name the collection gives its id (`"unknown"` when it has none); a
/// stream puffin cannot parse has none.
pub proof fn lemma_stream_scopes_in_parse_order(names: Map<u32, Seq<char>>, stream: Seq<u8>)
    ensures
        match puffin_top_scopes(stream) {
            Some(parsed) => {
                &&& stream_scopes(names, stream).len() == parsed.len()
                &&& forall|k: int|
                    0 <= k < parsed.len() ==> {
                        &&& (#[trigger] stream_scopes(names, stream)[k]).1 == parsed[k].1
                        &&& names.contains_key(parsed[k].0) ==> stream_scopes(names, stream)[k].0
                            == names[parsed[k].0]
                        &&& !names.contains_key(parsed[k].0) ==> stream_scopes(
                            names,
                            stream,
                        )[k].0 == "unknown"@
                    }
            },
            None => stream_scopes(names, stream).len() == 0,
        },
{
}

/// A frame's scopes are its streams' scopes, stream after stream: adding a
/// stream appends that stream's scopes after those of the streams before it.
pub proof fn lemma_frame_scopes_in_stream_order(
    names: Map<u32, Seq<char>>,
    streams: Seq<Seq<u8>>,
    stream: Seq<u8>,
)
    ensures
        frame_scopes(names, streams.push(stream)) == frame_scopes(names, streams) + stream_scopes(
            names,
            stream,
        ),
        frame_scopes(names, Seq::<Seq<u8>>::empty()).len() == 0,
{
    assert(streams.push(stream).drop_last() =~= streams);
}

/// The time of a scope joins its section by plain addition whenever the sum fits
/// in an `i64`.
pub proof fn lemma_sat_add_exact(a: i64, b: i64)
    ensures
        i64::MIN <= a + b <= i64::MAX ==> sat_add(a, b) == a + b,
        a + b > i64::MAX ==> sat_add(a, b) == i64::MAX,
        a + b < i64::MIN ==> sat_add(a, b) == i64::MIN,
{
}

proof fn lemma_first_named_push(s: Seq<(Seq<char>, i64)>, x: (Seq<char>, i64), name: Seq<char>)
    requires
        has_name(s, name),
    ensures
        has_name(s.push(x), name),
        first_named(s.push(x), name) == first_named(s, name),
{
    let t = s.push(x);
    lemma_first_named(s, name);
    let p = first_named(s, name);
    assert(named_at(t, name, p));
    assert(has_name(t, name));
    lemma_first_named(t, name);
    let q = first_named(t, name);
    if q < p {
        assert(named_at(s, name, q));
    }
    if p < q {
        assert(!named_at(t, name, p));
    }
}

proof fn lemma_first_named_new(s: Seq<(Seq<char>, i64)>, x: (Seq<char>, i64))
    requires
        !has_name(s, x.0),
    ensures
        has_name(s.push(x), x.0),
        first_named(s.push(x), x.0) == s.len(),
{
    let t = s.push(x);
    assert(named_at(t, x.0, s.len() as int));
    lemma_first_named(t, x.0);
    let q = first_named(t, x.0);
    if q < s.len() {
        assert(named_at(s, x.0, q));
    }
}

proof fn lemma_totals_step(prefix: Seq<(Seq<char>, i64)>, x: (Seq<char>, i64))
    ensures
        ({
            let t = totals(prefix);
            let u = totals(prefix.push(x));
            &&& forall|i: int| 0 <= i < t.len() ==> (#[trigger] u[i]).0 == t[i].0
            &&& has_name(t, x.0) ==> u.len() == t.len()
            &&& !has_name(t, x.0) ==> u.len() == t.len() + 1 && u[t.len() as int].0 == x.0
        }),
{
    let scopes = prefix.push(x);
    assert(scopes.drop_last() =~= prefix);
    let t = totals(prefix);
    if has_name(t, x.0) {
        lemma_first_named(t, x.0);
    }
}

proof fn lemma_totals_names_occur(scopes: Seq<(Seq<char>, i64)>)
    ensures
        forall|i: int|
            0 <= i < totals(scopes).len() ==> has_name(scopes, #[trigger] totals(scopes)[i].0),
{
    let u = totals(scopes);
    assert forall|i: int| 0 <= i < u.len() implies has_name(scopes, #[trigger] u[i].0) by {
        assert(named_at(u, u[i].0, i));
        lemma_totals_names(scopes, u[i].0);
    }
}

/// Sections come in the order in which their names first occur among the scopes:
/// each section's name occurs among the scopes, and of two sections the earlier
/// one's name occurs first.
pub proof fn lemma_totals_first_occurrence_order(scopes: Seq<(Seq<char>, i64)>)
    ensures
        forall|i: int|
            0 <= i < totals(scopes).len() ==> has_name(scopes, #[trigger] totals(scopes)[i].0),
        forall|i: int, j: int|
            0 <= i < j < totals(scopes).len() ==> first_named(scopes, #[trigger] totals(scopes)[i].0)
                < first_named(scopes, #[trigger] totals(scopes)[j].0),
    decreases scopes.len(),
{
    lemma_totals_names_occur(scopes);
    if scopes.len() > 0 {
        let prefix = scopes.drop_last();
        let x = scopes.last();
        assert(prefix.push(x) =~= scopes);
        lemma_totals_first_occurrence_order(prefix);
        lemma_totals_step(prefix, x);
        lemma_totals_names(prefix, x.0);
        let t = totals(prefix);
        let u = totals(scopes);
        assert forall|i: int, j: int| 0 <= i < j < u.len() implies first_named(
            scopes,
            #[trigger] u[i].0,
        ) < first_named(scopes, #[trigger] u[j].0) by {
            assert(u[i].0 == t[i].0);
            assert(has_name(prefix, t[i].0));
            lemma_first_named_push(prefix, x, t[i].0);
            if j < t.len() {
                assert(u[j].0 == t[j].0);
                assert(has_name(prefix, t[j].0));
                lemma_first_named_push(prefix, x, t[j].0);
            } else {
                lemma_first_named_new(prefix, x);
                lemma_first_named(prefix, t[i].0);
            }
        }
    }
}

/// At a well-formed top-level scope whose children end fits in a `u64`, the check
/// fails exactly when stop minus start overflows an `i64`, and otherwise gives the
/// answer for the rest of the stream after the scope: nested children by
/// themselves never make a stream unsafe.
pub proof fn lemma_scope_read_safely_steps(data: Seq<u8>, at: int)
    requires
        0 <= at,
        at + 14 <= data.len(),
        data[at] == 40u8,
        le_u32_at(data, at + 1) != 0,
        at + 14 + data[at + 13] + 8 <= data.len(),
        at + 14 + data[at + 13] + 8 + le_u64_at(data, at + 14 + data[at + 13]) <= u64::MAX,
        at + 14 + data[at + 13] + 8 + le_u64_at(data, at + 14 + data[at + 13]) + 9 <= data.len(),
        data[at + 14 + data[at + 13] + 8 + le_u64_at(data, at + 14 + data[at + 13])] == 41u8,
    ensures
        ({
            let close = at + 14 + data[at + 13] + 8 + le_u64_at(data, at + 14 + data[at + 13]);
            let start = le_i64_at(data, at + 5);
            let stop = le_i64_at(data, close + 1);
            scopes_read_safely(data, at) == if stop < start {
                true
            } else if stop - start > i64::MAX {
                false
            } else {
                scopes_read_safely(data, close + 9)
            }
        }),
{
}

/// A stream is unsafe to read only because of an overflow: a scope that the
/// reader reaches either ends its children past `u64::MAX` or lasts longer than
/// `i64::MAX`; a stream without such a scope reads safely, whatever else it holds.
pub proof fn lemma_scope_read_unsafe_only_on_overflow(data: Seq<u8>, at: int)
    requires
        !scopes_read_safely(data, at),
    ensures
        0 <= at < data.len(),
        data[at] == 40u8,
        at + 14 + data[at + 13] + 8 <= data.len(),
        ({
            let name_end = at + 14 + data[at + 13];
            let close = name_end + 8 + le_u64_at(data, name_end);
            ||| close > u64::MAX
            ||| (close + 9 <= data.len() && le_i64_at(data, close + 1) >= le_i64_at(data, at + 5)
                && le_i64_at(data, close + 1) - le_i64_at(data, at + 5) > i64::MAX)
            ||| (close + 9 <= data.len() && !scopes_read_safely(data, close + 9))
        }),
{
}

} // verus!
