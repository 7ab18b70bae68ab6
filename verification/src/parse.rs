//! Parsers for the captured text of the two discovery commands.
//!
//! The two external tools emit differently-shaped lines: the known-device
//! listing leads with a marker token before the address, the scan leads with
//! a status header line and then address-first lines. Both converge on the
//! same device record. A line that cannot fill both fields is dropped rather
//! than turned into a partial record.

use vstd::prelude::*;
use vstd::string::StrSliceExecFns;

use crate::device::{Device, DeviceView};
use crate::text::{
    first_nl, first_ws, is_ws_char, lemma_first_nl_at, lemma_first_ws_at, lemma_trim_at,
    spec_trim, ws_char,
};

verus! {

/// Which external command produced a block of text, and so which line shape
/// the parser expects.
#[derive(Clone, Copy, Debug)]
pub enum SourceKind {
    /// The known-device listing: `<marker> <address> <alias...>`.
    Listing,
    /// The scan output: a header line, then `<address> <alias...>`.
    Scan,
}

/// One line of the known-device listing, trimmed and split at its first two
/// whitespace characters: marker, then address, then the alias as the
/// untouched remainder. Lines with fewer than three fields, or with an empty
/// address or alias, yield nothing.
pub open spec fn spec_parse_known_line(line: Seq<char>) -> Option<DeviceView> {
    let t = spec_trim(line);
    let i = first_ws(t) as int;
    if i >= t.len() {
        None
    } else {
        let rest = t.skip(i + 1);
        let j = first_ws(rest) as int;
        if j >= rest.len() {
            None
        } else {
            let mac = rest.subrange(0, j);
            let alias = rest.skip(j + 1);
            if mac.len() == 0 || alias.len() == 0 {
                None
            } else {
                Some(DeviceView { alias, mac_address: mac })
            }
        }
    }
}

/// One line of the scan output, trimmed and split at its first whitespace
/// character: address, then the alias as the untouched remainder. Lines with
/// fewer than two fields, or with an empty field, yield nothing.
pub open spec fn spec_parse_scan_line(line: Seq<char>) -> Option<DeviceView> {
    let t = spec_trim(line);
    let i = first_ws(t) as int;
    if i >= t.len() {
        None
    } else {
        let mac = t.subrange(0, i);
        let alias = t.skip(i + 1);
        if mac.len() == 0 || alias.len() == 0 {
            None
        } else {
            Some(DeviceView { alias, mac_address: mac })
        }
    }
}

/// The record one line yields under the given source's shape.
pub open spec fn spec_line_record(kind: SourceKind, line: Seq<char>) -> Option<DeviceView> {
    match kind {
        SourceKind::Listing => spec_parse_known_line(line),
        SourceKind::Scan => spec_parse_scan_line(line),
    }
}

/// The lines of a text, split at `'\n'`; a trailing line break opens no
/// further empty line.
pub open spec fn spec_lines(t: Seq<char>) -> Seq<Seq<char>>
    decreases t.len(),
{
    if t.len() == 0 {
        Seq::empty()
    } else {
        let i = first_nl(t) as int;
        if i < t.len() {
            seq![t.subrange(0, i)] + spec_lines(t.skip(i + 1))
        } else {
            seq![t]
        }
    }
}

/// A record, if one was produced, put in front of the records that follow.
pub open spec fn opt_prepend(d: Option<DeviceView>, rest: Seq<DeviceView>) -> Seq<DeviceView> {
    match d {
        Some(x) => seq![x] + rest,
        None => rest,
    }
}

/// The records a sequence of lines yields, in line order, lines that yield
/// nothing skipped.
pub open spec fn spec_records(kind: SourceKind, lines: Seq<Seq<char>>) -> Seq<DeviceView>
    decreases lines.len(),
{
    if lines.len() == 0 {
        Seq::empty()
    } else {
        opt_prepend(
            spec_line_record(kind, lines[0]),
            spec_records(kind, lines.drop_first()),
        )
    }
}

/// What parsing the full known-device listing returns.
pub open spec fn spec_parse_known(t: Seq<char>) -> Seq<DeviceView> {
    spec_records(SourceKind::Listing, spec_lines(t))
}

/// What parsing the full scan output returns: the header line is skipped,
/// the rest parsed address-first.
pub open spec fn spec_parse_scan(t: Seq<char>) -> Seq<DeviceView> {
    if spec_lines(t).len() == 0 {
        Seq::empty()
    } else {
        spec_records(SourceKind::Scan, spec_lines(t).drop_first())
    }
}

/// Index of the next line break at or after `from`, or the length when the
/// rest of the text has none.
fn find_nl(s: &str, from: usize) -> (r: usize)
    requires
        from <= s@.len(),
    ensures
        from <= r <= s@.len(),
        forall|k: int| from <= k < r ==> s@[k] != '\n',
        r < s@.len() ==> s@[r as int] == '\n',
{
    let n = s.unicode_len();
    let mut i = from;
    while i < n && s.get_char(i) != '\n'
        invariant
            from <= i <= n,
            n == s@.len(),
            forall|k: int| from <= k < i ==> s@[k] != '\n',
        decreases n - i,
    {
        i = i + 1;
    }
    i
}

/// Parses one line under the given source's shape.
fn parse_line(kind: SourceKind, line: &str) -> (r: Option<Device>)
    ensures
        r.deep_view() == spec_line_record(kind, line@),
{
    let ghost l = line@;
    let n = line.unicode_len();
    let mut lo: usize = 0;
    while lo < n && ws_char(line.get_char(lo))
        invariant
            lo <= n,
            n == l.len(),
            l == line@,
            forall|k: int| 0 <= k < lo ==> is_ws_char(l[k]),
        decreases n - lo,
    {
        lo = lo + 1;
    }
    if lo == n {
        proof {
            lemma_trim_at(l, n as int, n as int);
            assert(spec_trim(l) =~= Seq::<char>::empty());
        }
        return None;
    }
    let mut hi: usize = n;
    while hi > lo && ws_char(line.get_char(hi - 1))
        invariant
            lo < hi <= n,
            n == l.len(),
            l == line@,
            !is_ws_char(l[lo as int]),
            forall|k: int| hi <= k < n ==> is_ws_char(l[k]),
        decreases hi,
    {
        hi = hi - 1;
    }
    proof {
        lemma_trim_at(l, lo as int, hi as int);
    }
    let ghost t = l.subrange(lo as int, hi as int);
    let mut p: usize = lo;
    while p < hi && !ws_char(line.get_char(p))
        invariant
            lo <= p <= hi <= n,
            n == l.len(),
            l == line@,
            forall|k: int| lo <= k < p ==> !is_ws_char(l[k]),
        decreases hi - p,
    {
        p = p + 1;
    }
    proof {
        assert forall|k: int| 0 <= k < p - lo implies !is_ws_char(t[k]) by {
            assert(t[k] == l[lo + k]);
        }
        if p < hi {
            assert(t[p - lo] == l[p as int]);
        }
        lemma_first_ws_at(t, p as int - lo as int);
    }
    if p == hi {
        return None;
    }
    match kind {
        SourceKind::Scan => {
            if p + 1 == hi {
                proof {
                    assert(t.skip(p - lo + 1) =~= Seq::<char>::empty());
                }
                return None;
            }
            assert(p > lo);
            let mac = line.substring_char(lo, p).to_owned();
            let alias = line.substring_char(p + 1, hi).to_owned();
            proof {
                assert(t.subrange(0, p - lo) =~= l.subrange(lo as int, p as int));
                assert(t.skip(p - lo + 1) =~= l.subrange(p as int + 1, hi as int));
            }
            Some(Device { alias, mac_address: mac })
        }
        SourceKind::Listing => {
            let ghost rest = t.skip(p - lo + 1);
            proof {
                assert(rest =~= l.subrange(p as int + 1, hi as int));
            }
            let mut q: usize = p + 1;
            while q < hi && !ws_char(line.get_char(q))
                invariant
                    p + 1 <= q <= hi <= n,
                    n == l.len(),
                    l == line@,
                    forall|k: int| p + 1 <= k < q ==> !is_ws_char(l[k]),
                decreases hi - q,
            {
                q = q + 1;
            }
            proof {
                assert forall|k: int| 0 <= k < q - (p + 1) implies !is_ws_char(rest[k]) by {
                    assert(rest[k] == l[p + 1 + k]);
                }
                if q < hi {
                    assert(rest[q - (p + 1)] == l[q as int]);
                }
                lemma_first_ws_at(rest, q as int - (p as int + 1));
            }
            if q == hi {
                return None;
            }
            if q == p + 1 {
                proof {
                    assert(rest.subrange(0, 0).len() == 0);
                }
                return None;
            }
            if q + 1 == hi {
                proof {
                    assert(rest.skip(q - p) =~= Seq::<char>::empty());
                }
                return None;
            }
            let mac = line.substring_char(p + 1, q).to_owned();
            let alias = line.substring_char(q + 1, hi).to_owned();
            proof {
                assert(rest.subrange(0, q - (p + 1)) =~= l.subrange(p as int + 1, q as int));
                assert(rest.skip(q - (p + 1) + 1) =~= l.subrange(q as int + 1, hi as int));
            }
            Some(Device { alias, mac_address: mac })
        }
    }
}

/// One loop step of a block parse: the records of the text from `pos` on are
/// the record of the line `[pos, e)` (if any) followed by the records of the
/// text after that line.
proof fn lemma_records_step(kind: SourceKind, t: Seq<char>, pos: int, e: int)
    requires
        0 <= pos <= e <= t.len(),
        pos < t.len(),
        forall|k: int| pos <= k < e ==> t[k] != '\n',
        e < t.len() ==> t[e] == '\n',
    ensures
        spec_records(kind, spec_lines(t.skip(pos))) == opt_prepend(
            spec_line_record(kind, t.subrange(pos, e)),
            spec_records(
                kind,
                spec_lines(t.skip(if e < t.len() { e + 1 } else { e })),
            ),
        ),
{
    let u = t.skip(pos);
    assert forall|k: int| 0 <= k < e - pos implies u[k] != '\n' by {
        assert(u[k] == t[pos + k]);
    }
    if e - pos < u.len() {
        assert(u[e - pos] == t[e]);
    }
    lemma_first_nl_at(u, e - pos);
    let lines = spec_lines(u);
    if e < t.len() {
        assert(u.subrange(0, e - pos) =~= t.subrange(pos, e));
        assert(u.skip(e - pos + 1) =~= t.skip(e + 1));
        assert(lines == seq![t.subrange(pos, e)] + spec_lines(t.skip(e + 1)));
        assert(lines[0] == t.subrange(pos, e));
        assert(lines.drop_first() =~= spec_lines(t.skip(e + 1)));
    } else {
        assert(u =~= t.subrange(pos, e));
        assert(lines == seq![u]);
        assert(lines[0] == t.subrange(pos, e));
        assert(lines.drop_first() =~= Seq::<Seq<char>>::empty());
        assert(t.skip(e) =~= Seq::<char>::empty());
        assert(spec_lines(t.skip(e)) == Seq::<Seq<char>>::empty());
    }
}

/// Parses every line of `raw` from `start` on under the given shape.
fn parse_block(kind: SourceKind, raw: &str, start: usize) -> (r: Vec<Device>)
    requires
        start <= raw@.len(),
    ensures
        r.deep_view() == spec_records(kind, spec_lines(raw@.skip(start as int))),
{
    let ghost full = raw@;
    let n = raw.unicode_len();
    let mut out: Vec<Device> = Vec::new();
    let mut pos: usize = start;
    proof {
        assert(out.deep_view() =~= Seq::<DeviceView>::empty());
    }
    while pos < n
        invariant
            start <= pos <= n,
            n == full.len(),
            full == raw@,
            spec_records(kind, spec_lines(full.skip(start as int))) == out.deep_view()
                + spec_records(kind, spec_lines(full.skip(pos as int))),
        decreases n - pos,
    {
        let e = find_nl(raw, pos);
        let line = raw.substring_char(pos, e);
        let d = parse_line(kind, line);
        let next = if e == n {
            n
        } else {
            e + 1
        };
        proof {
            lemma_records_step(kind, full, pos as int, e as int);
        }
        let ghost prev = out.deep_view();
        match d {
            Some(dev) => {
                out.push(dev);
                proof {
                    assert(out.deep_view() =~= prev + seq![dev@]);
                }
            },
            None => {},
        }
        proof {
            assert(out.deep_view() + spec_records(kind, spec_lines(full.skip(next as int)))
                =~= prev + spec_records(kind, spec_lines(full.skip(pos as int))));
        }
        pos = next;
    }
    proof {
        assert(full.skip(pos as int) =~= Seq::<char>::empty());
        assert(out.deep_view() + Seq::<DeviceView>::empty() =~= out.deep_view());
    }
    out
}

/// Parses the captured text of the known-device listing: for each line, the
/// second whitespace-delimited field becomes the hardware address and the
/// untouched remainder the alias; lines that cannot fill both are dropped.
/// Records keep line order, duplicates included.
pub fn devices(raw: &str) -> (r: Vec<Device>)
    ensures
        r.deep_view() == spec_parse_known(raw@),
        forall|i: int| 0 <= i < r@.len() ==> (#[trigger] r@[i])@.wf(),
{
    proof {
        assert(raw@.skip(0) =~= raw@);
    }
    let r = parse_block(SourceKind::Listing, raw, 0);
    proof {
        lemma_records_wf(SourceKind::Listing, spec_lines(raw@));
        assert forall|i: int| 0 <= i < r@.len() implies (#[trigger] r@[i])@.wf() by {
            assert(r.deep_view()[i] == r@[i]@);
        }
    }
    r
}

/// Parses the captured text of a scan: the first line is a status header and
/// is discarded; on each remaining line the first whitespace-delimited field
/// becomes the hardware address and the untouched remainder the alias; lines
/// that cannot fill both are dropped. Records keep line order.
pub fn available_devices(raw: &str) -> (r: Vec<Device>)
    ensures
        r.deep_view() == spec_parse_scan(raw@),
        forall|i: int| 0 <= i < r@.len() ==> (#[trigger] r@[i])@.wf(),
{
    let ghost full = raw@;
    let n = raw.unicode_len();
    let e = find_nl(raw, 0);
    let start = if e == n {
        n
    } else {
        e + 1
    };
    proof {
        lemma_first_nl_at(full, e as int);
        if full.len() == 0 {
            assert(full.skip(0) =~= full);
        } else if (e as int) < full.len() {
            assert(spec_lines(full) == seq![full.subrange(0, e as int)] + spec_lines(
                full.skip(e + 1),
            ));
            assert(spec_lines(full).drop_first() =~= spec_lines(full.skip(e + 1)));
        } else {
            assert(spec_lines(full) == seq![full]);
            assert(spec_lines(full).drop_first() =~= Seq::<Seq<char>>::empty());
            assert(full.skip(n as int) =~= Seq::<char>::empty());
        }
    }
    let r = parse_block(SourceKind::Scan, raw, start);
    proof {
        if spec_lines(full).len() > 0 {
            lemma_records_wf(SourceKind::Scan, spec_lines(full).drop_first());
        }
        assert(r.deep_view() == spec_parse_scan(full));
        assert forall|i: int| 0 <= i < r@.len() implies (#[trigger] r@[i])@.wf() by {
            assert(r.deep_view()[i] == r@[i]@);
            assert(spec_parse_scan(full)[i].wf());
        }
    }
    r
}

/// One record per line, in line order: when every line yields a record, the
/// parse returns exactly that line's record at that line's position.
pub proof fn lemma_records_per_line(kind: SourceKind, lines: Seq<Seq<char>>)
    requires
        forall|i: int| 0 <= i < lines.len() ==> spec_line_record(kind, lines[i]) is Some,
    ensures
        spec_records(kind, lines).len() == lines.len(),
        forall|i: int|
            0 <= i < lines.len() ==> spec_records(kind, lines)[i] == spec_line_record(
                kind,
                lines[i],
            )->Some_0,
    decreases lines.len(),
{
    if lines.len() > 0 {
        let rest = lines.drop_first();
        assert forall|i: int| 0 <= i < rest.len() implies spec_line_record(kind, rest[i]) is Some by {
            assert(rest[i] == lines[i + 1]);
        }
        lemma_records_per_line(kind, rest);
        assert forall|i: int|
            0 <= i < lines.len() implies spec_records(kind, lines)[i] == spec_line_record(
            kind,
            lines[i],
        )->Some_0 by {
            if i > 0 {
                assert(rest[i - 1] == lines[i]);
                assert(spec_records(kind, lines)[i] == spec_records(kind, rest)[i - 1]);
            }
        }
    }
}

/// Every record a parse produces is well formed: a partial record is never
/// constructed, whatever the input text.
pub proof fn lemma_records_wf(kind: SourceKind, lines: Seq<Seq<char>>)
    ensures
        forall|i: int| 0 <= i < spec_records(kind, lines).len() ==> spec_records(kind, lines)[i].wf(),
    decreases lines.len(),
{
    if lines.len() > 0 {
        let rest = lines.drop_first();
        lemma_records_wf(kind, rest);
        assert forall|i: int|
            0 <= i < spec_records(kind, lines).len() implies spec_records(kind, lines)[i].wf() by {
            match spec_line_record(kind, lines[0]) {
                Some(d) => {
                    if i > 0 {
                        assert(spec_records(kind, lines)[i] == spec_records(kind, rest)[i - 1]);
                    }
                },
                None => {},
            }
        }
    }
}

/// Discovery parsing is a pure function of the captured text: two parses of
/// identical input yield identical ordered output.
pub proof fn lemma_discovery_idempotent(t1: Seq<char>, t2: Seq<char>)
    requires
        t1 == t2,
    ensures
        spec_parse_known(t1) == spec_parse_known(t2),
        spec_parse_scan(t1) == spec_parse_scan(t2),
{
}

} // verus!
