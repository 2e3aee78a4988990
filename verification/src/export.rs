//! CSV text of audit entries. (JSON Lines export goes through serde and
//! is written by the application layer.)

use vstd::prelude::*;

use crate::entry::{opt_text, uuid_text, uuid_text_spec, AuditEntry};
use crate::text::{chars_of, contains_char, push_char, push_str};

verus! {

/// The CSV header row, without its line break.
pub open spec fn csv_header() -> Seq<char> {
    "id,timestamp,severity,source,action,details,agent_id,prev_hash,hash"@
}

/// `f` with every double quote doubled.
pub open spec fn double_quotes(f: Seq<char>) -> Seq<char>
    decreases f.len(),
{
    if f.len() == 0 {
        Seq::empty()
    } else {
        double_quotes(f.drop_last()) + if f.last() == '"' {
            seq!['"', '"']
        } else {
            seq![f.last()]
        }
    }
}

/// A CSV field: quoted, with its quotes doubled, when it holds a comma, a
/// double quote or a line break; otherwise as it is.
pub open spec fn csv_field(f: Seq<char>) -> Seq<char> {
    if f.contains(',') || f.contains('"') || f.contains('\n') {
        seq!['"'] + double_quotes(f) + seq!['"']
    } else {
        f
    }
}

/// The CSV row of an entry: id, timestamp, severity, then the escaped
/// source, action, details and agent id (empty when absent), then the
/// previous hash and the hash.
pub open spec fn csv_row(e: AuditEntry) -> Seq<char> {
    uuid_text_spec(e.id@) + ","@ + e.timestamp.text() + ","@ + e.severity.name() + ","@ + csv_field(
        e.source@,
    ) + ","@ + csv_field(e.action@) + ","@ + csv_field(e.details@) + ","@ + csv_field(
        opt_text(e.agent_id),
    ) + ","@ + e.prev_hash@ + ","@ + e.hash@
}

/// The CSV rows of `s`, each followed by a line break.
pub open spec fn csv_rows(s: Seq<AuditEntry>) -> Seq<char>
    decreases s.len(),
{
    if s.len() == 0 {
        Seq::empty()
    } else {
        csv_rows(s.drop_last()) + csv_row(s.last()) + "\n"@
    }
}

/// Escape a CSV field: wrap it in quotes, doubling its quotes, if it holds
/// a comma, a double quote or a line break.
pub fn csv_escape(field: &str) -> (s: String)
    ensures
        s@ == csv_field(field@),
{
    if contains_char(field, ',') || contains_char(field, '"') || contains_char(field, '\n') {
        let v = chars_of(field);
        let mut s = String::new();
        push_char(&mut s, '"');
        let n = v.len();
        assert(field@.take(0) =~= Seq::<char>::empty());
        for i in 0..n
            invariant
                n == v@.len(),
                v@ == field@,
                s@ == seq!['"'] + double_quotes(field@.take(i as int)),
        {
            let c = v[i];
            if c == '"' {
                push_char(&mut s, '"');
                push_char(&mut s, '"');
            } else {
                push_char(&mut s, c);
            }
            assert(field@.take(i + 1).drop_last() =~= field@.take(i as int));
            assert(field@.take(i + 1).last() == c);
        }
        assert(field@.take(n as int) =~= field@);
        push_char(&mut s, '"');
        s
    } else {
        crate::text::string_of(field)
    }
}

/// Appends an entry's CSV row to `out`.
#[verifier::rlimit(40)]
fn push_csv_row(out: &mut String, e: &AuditEntry)
    ensures
        final(out)@ == old(out)@ + csv_row(*e),
{
    let id = uuid_text(&e.id);
    push_str(out, id.as_str());
    push_str(out, ",");
    let ts = e.timestamp.to_rfc3339();
    push_str(out, ts.as_str());
    push_str(out, ",");
    push_str(out, e.severity.as_str());
    push_str(out, ",");
    let f = csv_escape(e.source.as_str());
    push_str(out, f.as_str());
    push_str(out, ",");
    let f = csv_escape(e.action.as_str());
    push_str(out, f.as_str());
    push_str(out, ",");
    let f = csv_escape(e.details.as_str());
    push_str(out, f.as_str());
    push_str(out, ",");
    let f = match &e.agent_id {
        Some(a) => csv_escape(a.as_str()),
        None => csv_escape(""),
    };
    proof {
        if e.agent_id is None {
            assert(""@ =~= opt_text(e.agent_id)) by {
                reveal_strlit("");
            }
        }
    }
    push_str(out, f.as_str());
    push_str(out, ",");
    push_str(out, e.prev_hash.as_str());
    push_str(out, ",");
    push_str(out, e.hash.as_str());
    assert(out@ =~= old(out)@ + csv_row(*e));
}

/// The CSV text of `entries`: the header row, then one row per entry, each
/// line followed by a line break.
pub fn csv_text(entries: &[AuditEntry]) -> (s: String)
    ensures
        s@ == csv_header() + "\n"@ + csv_rows(entries@),
{
    let mut s = crate::text::string_of(
        "id,timestamp,severity,source,action,details,agent_id,prev_hash,hash",
    );
    push_str(&mut s, "\n");
    let ghost start = s@;
    let n = entries.len();
    assert(entries@.take(0) =~= Seq::<AuditEntry>::empty());
    for i in 0..n
        invariant
            n == entries@.len(),
            s@ == start + csv_rows(entries@.take(i as int)),
    {
        push_csv_row(&mut s, &entries[i]);
        push_str(&mut s, "\n");
        assert(entries@.take(i + 1).drop_last() =~= entries@.take(i as int));
    }
    assert(entries@.take(n as int) =~= entries@);
    s
}

/// Reading a line of CSV (RFC 4180) from `s`, with the field read so far
/// `cur`: commas separate fields; a field that begins with a double quote
/// runs to the next lone double quote, two double quotes inside it standing
/// for one. `quoted` tells whether the reader is inside such a field,
/// `fresh` whether it is at a field's first character.
pub open spec fn csv_read(s: Seq<char>, cur: Seq<char>, quoted: bool, fresh: bool) -> Seq<
    Seq<char>,
>
    decreases s.len(),
{
    if s.len() == 0 {
        seq![cur]
    } else if quoted {
        if s[0] == '"' {
            if s.len() > 1 && s[1] == '"' {
                csv_read(s.skip(2), cur.push('"'), true, false)
            } else {
                csv_read(s.skip(1), cur, false, false)
            }
        } else {
            csv_read(s.skip(1), cur.push(s[0]), true, false)
        }
    } else if s[0] == ',' {
        seq![cur] + csv_read(s.skip(1), Seq::empty(), false, true)
    } else if s[0] == '"' && fresh {
        csv_read(s.skip(1), cur, true, false)
    } else {
        csv_read(s.skip(1), cur.push(s[0]), false, false)
    }
}

/// The fields a CSV reader finds in a line.
pub open spec fn csv_fields(s: Seq<char>) -> Seq<Seq<char>> {
    csv_read(s, Seq::empty(), false, true)
}

/// Whether a text holds neither a comma nor a double quote, so that it
/// reads back as one CSV field when written as it is.
pub open spec fn plain(x: Seq<char>) -> bool {
    forall|i: int| 0 <= i < x.len() ==> x[i] != ',' && x[i] != '"'
}

proof fn lemma_read_plain(x: Seq<char>, u: Seq<char>, cur: Seq<char>, fresh: bool)
    requires
        plain(x),
    ensures
        csv_read(x + u, cur, false, fresh) == csv_read(u, cur + x, false, fresh && x.len() == 0),
    decreases x.len(),
{
    if x.len() == 0 {
        assert(x + u =~= u);
        assert(cur + x =~= cur);
    } else {
        let c = x.last();
        let x1 = x.drop_last();
        assert(plain(x1));
        let u1 = seq![c] + u;
        assert(x + u =~= x1 + u1);
        lemma_read_plain(x1, u1, cur, fresh);
        assert(u1.skip(1) =~= u);
        assert(u1[0] == c);
        assert(c != ',' && c != '"');
        assert((cur + x1).push(c) =~= cur + x);
    }
}

proof fn lemma_read_doubled(x: Seq<char>, u: Seq<char>, cur: Seq<char>)
    ensures
        csv_read(double_quotes(x) + u, cur, true, false) == if x.len() == 0 {
            csv_read(u, cur, true, false)
        } else {
            csv_read(u, cur + x, true, false)
        },
    decreases x.len(),
{
    if x.len() == 0 {
        assert(double_quotes(x) + u =~= u);
    } else {
        let c = x.last();
        let x1 = x.drop_last();
        let piece = if c == '"' {
            seq!['"', '"']
        } else {
            seq![c]
        };
        let u1 = piece + u;
        assert(double_quotes(x) + u =~= double_quotes(x1) + u1);
        lemma_read_doubled(x1, u1, cur);
        assert(cur + x1 + seq![c] =~= cur + x);
        if x1.len() == 0 {
            assert(cur + x1 =~= cur);
        }
        if c == '"' {
            assert(u1.skip(2) =~= u);
            assert((cur + x1).push('"') =~= cur + x);
        } else {
            assert(u1.skip(1) =~= u);
            assert((cur + x1).push(c) =~= cur + x);
        }
    }
}

/// A field written by `csv_field` and followed by a comma reads back as
/// that field, the reader going on after the comma.
proof fn lemma_read_field(f: Seq<char>, t: Seq<char>)
    ensures
        csv_fields(csv_field(f) + seq![','] + t) == seq![f] + csv_fields(t),
{
    let s = csv_field(f) + seq![','] + t;
    if f.contains(',') || f.contains('"') || f.contains('\n') {
        let body = double_quotes(f) + (seq!['"', ','] + t);
        assert(s =~= seq!['"'] + body);
        assert(s.skip(1) =~= body);
        lemma_read_doubled(f, seq!['"', ','] + t, Seq::empty());
        let v = seq!['"', ','] + t;
        assert(f.len() > 0);
        assert(v.skip(1) =~= seq![','] + t);
        assert((seq![','] + t).skip(1) =~= t);
        assert(Seq::<char>::empty() + f =~= f);
        assert(csv_read(s, Seq::empty(), false, true) == csv_read(body, Seq::empty(), true, false));
        assert(csv_read(body, Seq::empty(), true, false) == csv_read(v, f, true, false));
        assert(csv_read(v, f, true, false) == csv_read(seq![','] + t, f, false, false));
        assert(csv_read(seq![','] + t, f, false, false) == seq![f] + csv_fields(t));
    } else {
        assert forall|i: int| 0 <= i < f.len() implies f[i] != ',' && f[i] != '"' by {
            if f[i] == ',' {
                assert(f.contains(','));
            }
            if f[i] == '"' {
                assert(f.contains('"'));
            }
        }
        lemma_read_plain(f, seq![','] + t, Seq::empty(), true);
        assert(Seq::<char>::empty() + f =~= f);
        assert((seq![','] + t).skip(1) =~= t);
        assert(s =~= f + (seq![','] + t));
        assert(csv_read(seq![','] + t, f, false, f.len() == 0) == seq![f] + csv_fields(t));
    }
}

/// A plain text followed by a comma reads back as one field.
proof fn lemma_read_plain_field(x: Seq<char>, t: Seq<char>)
    requires
        plain(x),
    ensures
        csv_fields(x + seq![','] + t) == seq![x] + csv_fields(t),
{
    lemma_read_plain(x, seq![','] + t, Seq::empty(), true);
    assert(x + seq![','] + t =~= x + (seq![','] + t));
    assert(Seq::<char>::empty() + x =~= x);
    assert((seq![','] + t).skip(1) =~= t);
}

/// A plain text alone reads back as one field.
proof fn lemma_read_plain_last(x: Seq<char>)
    requires
        plain(x),
    ensures
        csv_fields(x) == seq![x],
{
    lemma_read_plain(x, Seq::empty(), Seq::empty(), true);
    assert(x + Seq::<char>::empty() =~= x);
    assert(Seq::<char>::empty() + x =~= x);
}

proof fn lemma_plain_concat(a: Seq<char>, b: Seq<char>)
    requires
        plain(a),
        plain(b),
    ensures
        plain(a + b),
{
    assert forall|i: int| 0 <= i < (a + b).len() implies (a + b)[i] != ',' && (a + b)[i] != '"' by {
        if i < a.len() {
            assert((a + b)[i] == a[i]);
        } else {
            assert((a + b)[i] == b[i - a.len()]);
        }
    }
}

proof fn lemma_hex_plain(b: Seq<u8>)
    ensures
        plain(crate::hasher::hex_spec(b)),
{
    let h = crate::hasher::hex_spec(b);
    assert forall|i: int| 0 <= i < h.len() implies h[i] != ',' && h[i] != '"' by {
        let n: u8 = if i % 2 == 0 {
            b[i / 2] / 16
        } else {
            b[i / 2] % 16
        };
        assert(h[i] == crate::hasher::hex_digit(n));
        let code: u8 = if n < 10 {
            (48 + n) as u8
        } else {
            (87 + n) as u8
        };
        assert((code as char) as u8 == code);
        assert(code >= 48);
    }
}

/// A UUID's text is hex digits and hyphens.
proof fn lemma_uuid_text_plain(id: Seq<u8>)
    ensures
        plain(uuid_text_spec(id)),
{
    reveal_strlit("-");
    lemma_hex_plain(id.subrange(0, 4));
    lemma_hex_plain(id.subrange(4, 6));
    lemma_hex_plain(id.subrange(6, 8));
    lemma_hex_plain(id.subrange(8, 10));
    lemma_hex_plain(id.subrange(10, 16));
    let h = crate::hasher::hex_spec(id.subrange(0, 4));
    assert(plain("-"@));
    lemma_plain_concat(h, "-"@);
    lemma_plain_concat(h + "-"@, crate::hasher::hex_spec(id.subrange(4, 6)));
    let a2 = h + "-"@ + crate::hasher::hex_spec(id.subrange(4, 6));
    lemma_plain_concat(a2, "-"@);
    lemma_plain_concat(a2 + "-"@, crate::hasher::hex_spec(id.subrange(6, 8)));
    let a3 = a2 + "-"@ + crate::hasher::hex_spec(id.subrange(6, 8));
    lemma_plain_concat(a3, "-"@);
    lemma_plain_concat(a3 + "-"@, crate::hasher::hex_spec(id.subrange(8, 10)));
    let a4 = a3 + "-"@ + crate::hasher::hex_spec(id.subrange(8, 10));
    lemma_plain_concat(a4, "-"@);
    lemma_plain_concat(a4 + "-"@, crate::hasher::hex_spec(id.subrange(10, 16)));
}

proof fn lemma_severity_name_plain(v: crate::entry::EventSeverity)
    ensures
        plain(v.name()),
{
    reveal_strlit("Debug");
    reveal_strlit("Info");
    reveal_strlit("Warning");
    reveal_strlit("Error");
    reveal_strlit("Critical");
    reveal_strlit("Security");
}

/// Nine texts joined by commas, grouped from the right.
spec fn join_right(f: Seq<Seq<char>>) -> Seq<char> {
    let c = seq![','];
    f[0] + c + (f[1] + c + (f[2] + c + (f[3] + c + (f[4] + c + (f[5] + c + (f[6] + c + (f[7] + c
        + f[8])))))))
}

proof fn lemma_row_regroups(e: AuditEntry, f: Seq<Seq<char>>)
    requires
        f == seq![
            uuid_text_spec(e.id@),
            e.timestamp.text(),
            e.severity.name(),
            csv_field(e.source@),
            csv_field(e.action@),
            csv_field(e.details@),
            csv_field(opt_text(e.agent_id)),
            e.prev_hash@,
            e.hash@,
        ],
    ensures
        csv_row(e) == join_right(f),
{
    reveal_strlit(",");
    assert(csv_row(e) =~= join_right(f));
}

/// Reading nine comma-joined texts, each of which reads back as one field.
proof fn lemma_read_joined(f: Seq<Seq<char>>, v: Seq<Seq<char>>)
    requires
        f.len() == 9,
        v.len() == 9,
        forall|i: int, t: Seq<char>| 0 <= i < 8 ==> csv_fields(#[trigger] (f[i] + seq![','] + t))
            == seq![v[i]] + csv_fields(t),
        csv_fields(f[8]) == seq![v[8]],
    ensures
        csv_fields(join_right(f)) == v,
{
    let c = seq![','];
    let r8 = f[8];
    let r7 = f[7] + c + r8;
    let r6 = f[6] + c + r7;
    let r5 = f[5] + c + r6;
    let r4 = f[4] + c + r5;
    let r3 = f[3] + c + r4;
    let r2 = f[2] + c + r3;
    let r1 = f[1] + c + r2;
    let r0 = f[0] + c + r1;
    assert(csv_fields(r7) == seq![v[7]] + csv_fields(r8));
    assert(csv_fields(r6) == seq![v[6]] + csv_fields(r7));
    assert(csv_fields(r5) == seq![v[5]] + csv_fields(r6));
    assert(csv_fields(r4) == seq![v[4]] + csv_fields(r5));
    assert(csv_fields(r3) == seq![v[3]] + csv_fields(r4));
    assert(csv_fields(r2) == seq![v[2]] + csv_fields(r3));
    assert(csv_fields(r1) == seq![v[1]] + csv_fields(r2));
    assert(csv_fields(r0) == seq![v[0]] + csv_fields(r1));
    assert(csv_fields(r0) =~= v);
}

/// Each CSV row reads back, with a CSV reader, as the entry's fields in
/// the header's order: id, timestamp, severity, source, action, details,
/// agent id (empty when absent), previous hash, hash. This holds for every
/// entry whose fields written unescaped (the timestamp's text, the previous
/// hash and the hash) hold no comma or double quote.
pub proof fn lemma_csv_row_reads_back(e: AuditEntry)
    requires
        plain(e.timestamp.text()),
        plain(e.prev_hash@),
        plain(e.hash@),
    ensures
        csv_fields(csv_row(e)) == seq![
            uuid_text_spec(e.id@),
            e.timestamp.text(),
            e.severity.name(),
            e.source@,
            e.action@,
            e.details@,
            opt_text(e.agent_id),
            e.prev_hash@,
            e.hash@,
        ],
{
    let v = seq![
        uuid_text_spec(e.id@),
        e.timestamp.text(),
        e.severity.name(),
        e.source@,
        e.action@,
        e.details@,
        opt_text(e.agent_id),
        e.prev_hash@,
        e.hash@,
    ];
    let f = seq![
        uuid_text_spec(e.id@),
        e.timestamp.text(),
        e.severity.name(),
        csv_field(e.source@),
        csv_field(e.action@),
        csv_field(e.details@),
        csv_field(opt_text(e.agent_id)),
        e.prev_hash@,
        e.hash@,
    ];
    lemma_row_regroups(e, f);
    lemma_uuid_text_plain(e.id@);
    lemma_severity_name_plain(e.severity);
    assert forall|i: int, t: Seq<char>| 0 <= i < 8 implies csv_fields(
        #[trigger] (f[i] + seq![','] + t),
    ) == seq![v[i]] + csv_fields(t) by {
        if i == 0 || i == 1 || i == 2 || i == 7 {
            lemma_read_plain_field(v[i], t);
        } else {
            lemma_read_field(v[i], t);
        }
    }
    lemma_read_plain_last(e.hash@);
    lemma_read_joined(f, v);
}

/// The header names the columns in the order rows hold them.
pub proof fn lemma_csv_header_fields()
    ensures
        csv_fields(csv_header()) == seq![
            "id"@,
            "timestamp"@,
            "severity"@,
            "source"@,
            "action"@,
            "details"@,
            "agent_id"@,
            "prev_hash"@,
            "hash"@,
        ],
{
    reveal_strlit("id,timestamp,severity,source,action,details,agent_id,prev_hash,hash");
    reveal_strlit("id");
    reveal_strlit("timestamp");
    reveal_strlit("severity");
    reveal_strlit("source");
    reveal_strlit("action");
    reveal_strlit("details");
    reveal_strlit("agent_id");
    reveal_strlit("prev_hash");
    reveal_strlit("hash");
    let c = seq![','];
    let r8 = "hash"@;
    let r7 = "prev_hash"@ + c + r8;
    let r6 = "agent_id"@ + c + r7;
    let r5 = "details"@ + c + r6;
    let r4 = "action"@ + c + r5;
    let r3 = "source"@ + c + r4;
    let r2 = "severity"@ + c + r3;
    let r1 = "timestamp"@ + c + r2;
    let r0 = "id"@ + c + r1;
    assert(csv_header() =~= r0);
    assert(plain("hash"@) && plain("prev_hash"@) && plain("agent_id"@) && plain("details"@));
    assert(plain("action"@) && plain("source"@) && plain("severity"@) && plain("timestamp"@));
    assert(plain("id"@));
    lemma_read_plain_last(r8);
    lemma_read_plain_field("prev_hash"@, r8);
    lemma_read_plain_field("agent_id"@, r7);
    lemma_read_plain_field("details"@, r6);
    lemma_read_plain_field("action"@, r5);
    lemma_read_plain_field("source"@, r4);
    lemma_read_plain_field("severity"@, r3);
    lemma_read_plain_field("timestamp"@, r2);
    lemma_read_plain_field("id"@, r1);
    assert(csv_fields(r0) =~= seq![
        "id"@,
        "timestamp"@,
        "severity"@,
        "source"@,
        "action"@,
        "details"@,
        "agent_id"@,
        "prev_hash"@,
        "hash"@,
    ]);
}

} // verus!
