//! The SQL side of the SQLite store: the query text and parameters for a
//! filter, the column values of an entry, and the entry that a row's
//! column values describe. Running the statements is the application's.

use vstd::prelude::*;

use crate::entry::{compact_json, json_compact_spec, uuid_text, uuid_text_spec, AuditEntry, EventSeverity};
use crate::query::{admits, QueryFilter};
use crate::text::{decimal, push_decimal, push_str, string_of};
use crate::time::{key_after, rfc3339_parse_spec, Timestamp};

verus! {

/// The column list that every entry query selects.
pub const SELECT_COLS: &'static str =
    "SELECT id, timestamp, severity, source, action, details, agent_id, prev_hash, hash FROM audit_entries";

/// The condition for an optional criterion: none when it is unset.
pub open spec fn opt_cond(set: bool, column: Seq<char>, value: Seq<char>) -> Seq<(Seq<char>, Seq<char>)> {
    if set {
        seq![(column, value)]
    } else {
        Seq::empty()
    }
}

/// The SQL conditions a filter sets, in order: the comparison text and the
/// parameter value of each.
pub open spec fn filter_conditions(f: QueryFilter) -> Seq<(Seq<char>, Seq<char>)> {
    opt_cond(
        f.source is Some,
        "source = "@,
        match f.source {
            Some(s) => s@,
            None => Seq::empty(),
        },
    ) + opt_cond(
        f.severity is Some,
        "severity = "@,
        match f.severity {
            Some(v) => v.name(),
            None => Seq::empty(),
        },
    ) + opt_cond(
        f.agent_id is Some,
        "agent_id = "@,
        match f.agent_id {
            Some(a) => a@,
            None => Seq::empty(),
        },
    ) + opt_cond(
        f.action is Some,
        "action = "@,
        match f.action {
            Some(a) => a@,
            None => Seq::empty(),
        },
    ) + opt_cond(
        f.after is Some,
        "timestamp > "@,
        match f.after {
            Some(t) => t.text(),
            None => Seq::empty(),
        },
    ) + opt_cond(
        f.before is Some,
        "timestamp < "@,
        match f.before {
            Some(t) => t.text(),
            None => Seq::empty(),
        },
    )
}

/// The conditions joined by ` AND `, each with its numbered placeholder
/// `?1`, `?2`, ...
pub open spec fn joined_conditions(c: Seq<(Seq<char>, Seq<char>)>) -> Seq<char>
    decreases c.len(),
{
    if c.len() == 0 {
        Seq::empty()
    } else if c.len() == 1 {
        c[0].0 + "?"@ + decimal(1)
    } else {
        joined_conditions(c.drop_last()) + " AND "@ + c.last().0 + "?"@ + decimal(c.len())
    }
}

/// The SQL text of a filtered query: the selected columns, the conditions
/// (if any) after ` WHERE `, in insertion order.
pub open spec fn query_sql(c: Seq<(Seq<char>, Seq<char>)>) -> Seq<char> {
    SELECT_COLS@ + (if c.len() == 0 {
        Seq::empty()
    } else {
        " WHERE "@ + joined_conditions(c)
    }) + " ORDER BY seq"@
}

/// Appends a condition for an optional criterion.
fn push_cond(conds: &mut Vec<(String, String)>, column: &str, value: Option<String>)
    ensures
        final(conds)@.len() == old(conds)@.len() + if value is Some {
            1int
        } else {
            0int
        },
        forall|i: int| 0 <= i < old(conds)@.len() ==> final(conds)@[i] == old(conds)@[i],
        value matches Some(v) ==> final(conds)@.last().0@ == column@ && final(conds)@.last().1 == v,
{
    match value {
        Some(v) => conds.push((string_of(column), v)),
        None => {},
    }
}

/// The plain view of built conditions.
pub open spec fn conds_view(v: Seq<(String, String)>) -> Seq<(Seq<char>, Seq<char>)> {
    v.map_values(|p: (String, String)| (p.0@, p.1@))
}

/// The conditions a filter sets, built.
fn conditions_of(filter: &QueryFilter) -> (conds: Vec<(String, String)>)
    ensures
        conds_view(conds@) == filter_conditions(*filter),
{
    let mut conds: Vec<(String, String)> = Vec::new();
    let v = match &filter.source {
        Some(s) => Some(s.clone()),
        None => None,
    };
    push_cond(&mut conds, "source = ", v);
    let v = match &filter.severity {
        Some(s) => Some(string_of(s.as_str())),
        None => None,
    };
    push_cond(&mut conds, "severity = ", v);
    let v = match &filter.agent_id {
        Some(s) => Some(s.clone()),
        None => None,
    };
    push_cond(&mut conds, "agent_id = ", v);
    let v = match &filter.action {
        Some(s) => Some(s.clone()),
        None => None,
    };
    push_cond(&mut conds, "action = ", v);
    let v = match &filter.after {
        Some(t) => Some(t.to_rfc3339()),
        None => None,
    };
    push_cond(&mut conds, "timestamp > ", v);
    let v = match &filter.before {
        Some(t) => Some(t.to_rfc3339()),
        None => None,
    };
    push_cond(&mut conds, "timestamp < ", v);
    assert(conds_view(conds@) =~= filter_conditions(*filter));
    conds
}

/// The SQL text and parameter values for built conditions.
fn query_text(conds: &[(String, String)]) -> (r: (String, Vec<String>))
    ensures
        r.0@ == query_sql(conds_view(conds@)),
        r.1@.map_values(|p: String| p@) == conds_view(conds@).map_values(
            |x: (Seq<char>, Seq<char>)| x.1,
        ),
{
    let ghost c = conds_view(conds@);
    let mut sql = string_of(SELECT_COLS);
    let mut params: Vec<String> = Vec::new();
    let n = conds.len();
    if n > 0 {
        push_str(&mut sql, " WHERE ");
    }
    let ghost base = sql@;
    assert(c.take(0) =~= Seq::<(Seq<char>, Seq<char>)>::empty());
    for i in 0..n
        invariant
            n == c.len(),
            c == conds_view(conds@),
            sql@ == base + joined_conditions(c.take(i as int)),
            params@.map_values(|p: String| p@) == c.take(i as int).map_values(
                |x: (Seq<char>, Seq<char>)| x.1,
            ),
    {
        if i > 0 {
            push_str(&mut sql, " AND ");
        }
        push_str(&mut sql, conds[i].0.as_str());
        push_str(&mut sql, "?");
        push_decimal(&mut sql, (i + 1) as u64);
        let ghost before = params@;
        params.push(conds[i].1.clone());
        proof {
            assert(c.take(i + 1).drop_last() =~= c.take(i as int));
            if i == 0 {
                assert(c.take(1)[0] == c[0]);
            }
            assert(c[i as int].1 == conds@[i as int].1@);
            assert(params@ == before.push(conds@[i as int].1));
            assert(params@.map_values(|p: String| p@) =~= before.map_values(|p: String| p@).push(
                c[i as int].1,
            ));
            assert(c.take(i + 1).map_values(|x: (Seq<char>, Seq<char>)| x.1) =~= c.take(
                i as int,
            ).map_values(|x: (Seq<char>, Seq<char>)| x.1).push(c[i as int].1));
        }
    }
    assert(c.take(n as int) =~= c);
    push_str(&mut sql, " ORDER BY seq");
    (sql, params)
}

/// The SQL text and parameter values for the entries a filter admits, in
/// store order.
pub fn filter_query(filter: &QueryFilter) -> (r: (String, Vec<String>))
    ensures
        r.0@ == query_sql(filter_conditions(*filter)),
        r.1@.map_values(|p: String| p@) == filter_conditions(*filter).map_values(
            |c: (Seq<char>, Seq<char>)| c.1,
        ),
{
    let conds = conditions_of(filter);
    query_text(conds.as_slice())
}

/// The column values an entry is stored with: id (hyphenated), RFC 3339
/// timestamp, severity, source, action, details, agent id (NULL when
/// absent), previous hash, hash.
pub fn entry_columns(entry: &AuditEntry) -> (r: Vec<Option<String>>)
    ensures
        r@.len() == 9,
        r@[0] matches Some(s) && s@ == uuid_text_spec(entry.id@),
        r@[1] matches Some(s) && s@ == entry.timestamp.text(),
        r@[2] matches Some(s) && s@ == entry.severity.name(),
        r@[3] matches Some(s) && s@ == entry.source@,
        r@[4] matches Some(s) && s@ == entry.action@,
        r@[5] matches Some(s) && s@ == entry.details@,
        match entry.agent_id {
            Some(a) => r@[6] matches Some(s) && s@ == a@,
            None => r@[6] is None,
        },
        r@[7] matches Some(s) && s@ == entry.prev_hash@,
        r@[8] matches Some(s) && s@ == entry.hash@,
{
    let mut r: Vec<Option<String>> = Vec::new();
    r.push(Some(uuid_text(&entry.id)));
    r.push(Some(entry.timestamp.to_rfc3339()));
    r.push(Some(string_of(entry.severity.as_str())));
    r.push(Some(entry.source.clone()));
    r.push(Some(entry.action.clone()));
    r.push(Some(entry.details.clone()));
    r.push(
        match &entry.agent_id {
            Some(a) => Some(a.clone()),
            None => None,
        },
    );
    r.push(Some(entry.prev_hash.clone()));
    r.push(Some(entry.hash.clone()));
    r
}

/// The 16 bytes that `uuid` reads from a UUID text, if it parses.
pub uninterp spec fn uuid_parse_spec(text: Seq<char>) -> Option<Seq<u8>>;

/// Calls `uuid::Uuid::parse_str` and returns the UUID's bytes; claims it
/// parses exactly when the name above gives bytes, and gives those. The
/// error's text is the crate's and is not described.
#[verifier::external_body]
fn parse_uuid(text: &str) -> (r: Result<[u8; 16], String>)
    ensures
        r is Ok <==> uuid_parse_spec(text@) is Some,
        r matches Ok(b) ==> uuid_parse_spec(text@) == Some(b@),
{
    match uuid::Uuid::parse_str(text) {
        Ok(u) => Ok(*u.as_bytes()),
        Err(e) => Err(e.to_string()),
    }
}

/// The text columns of a stored entry row.
#[derive(Clone, Debug)]
pub struct RowFields {
    pub id: String,
    pub timestamp: String,
    pub severity: String,
    pub source: String,
    pub action: String,
    pub details: String,
    pub agent_id: Option<String>,
    pub prev_hash: String,
    pub hash: String,
}

/// Why a row does not describe an entry: the column and the message.
#[derive(Clone, Debug, PartialEq, Eq)]
pub struct RowError {
    pub column: usize,
    pub message: String,
}

/// The entry a row describes, with its stored hash taken as it is (not
/// recomputed), or the first column that does not convert: the id (0),
/// the timestamp (1), the severity (2, `unknown severity: {name}`) or the
/// details (5). The details are kept as the compact JSON text of their value.
pub fn entry_from_row(row: RowFields) -> (r: Result<AuditEntry, RowError>)
    ensures
        match r {
            Ok(e) => {
                &&& uuid_parse_spec(row.id@) == Some(e.id@)
                &&& rfc3339_parse_spec(row.timestamp@) == Some(e.timestamp.key())
                &&& e.severity.name() == row.severity@
                &&& e.source == row.source
                &&& e.action == row.action
                &&& json_compact_spec(row.details@) == Some(e.details@)
                &&& e.agent_id == row.agent_id
                &&& e.prev_hash == row.prev_hash
                &&& e.hash == row.hash
            },
            Err(err) => {
                ||| err.column == 0 && uuid_parse_spec(row.id@) is None
                ||| err.column == 1 && uuid_parse_spec(row.id@) is Some && rfc3339_parse_spec(
                    row.timestamp@,
                ) is None
                ||| err.column == 2 && uuid_parse_spec(row.id@) is Some && rfc3339_parse_spec(
                    row.timestamp@,
                ) is Some && (forall|v: EventSeverity| v.name() != row.severity@) && err.message@
                    == "unknown severity: "@ + row.severity@
                ||| err.column == 5 && uuid_parse_spec(row.id@) is Some && rfc3339_parse_spec(
                    row.timestamp@,
                ) is Some && (exists|v: EventSeverity| v.name() == row.severity@)
                    && json_compact_spec(row.details@) is None
            },
        },
{
    let id = match parse_uuid(row.id.as_str()) {
        Ok(b) => b,
        Err(m) => {
            return Err(RowError { column: 0, message: m });
        },
    };
    let timestamp = match Timestamp::parse_rfc3339(row.timestamp.as_str()) {
        Ok(t) => t,
        Err(m) => {
            return Err(RowError { column: 1, message: m });
        },
    };
    let severity = match EventSeverity::from_name(row.severity.as_str()) {
        Some(v) => v,
        None => {
            let mut m = string_of("unknown severity: ");
            push_str(&mut m, row.severity.as_str());
            return Err(RowError { column: 2, message: m });
        },
    };
    let details = match compact_json(row.details.as_str()) {
        Ok(d) => d,
        Err(m) => {
            return Err(RowError { column: 5, message: m });
        },
    };
    Ok(
        AuditEntry {
            id,
            timestamp,
            severity,
            source: row.source,
            action: row.action,
            details,
            agent_id: row.agent_id,
            prev_hash: row.prev_hash,
            hash: row.hash,
        },
    )
}

/// The value an entry's stored row holds in the column named `col`
/// (`None` for NULL, or for a column the table does not have).
pub open spec fn column_value(e: AuditEntry, col: Seq<char>) -> Option<Seq<char>> {
    if col == "id"@ {
        Some(uuid_text_spec(e.id@))
    } else if col == "timestamp"@ {
        Some(e.timestamp.text())
    } else if col == "severity"@ {
        Some(e.severity.name())
    } else if col == "source"@ {
        Some(e.source@)
    } else if col == "action"@ {
        Some(e.action@)
    } else if col == "details"@ {
        Some(e.details@)
    } else if col == "agent_id"@ {
        match e.agent_id {
            Some(a) => Some(a@),
            None => None,
        }
    } else if col == "prev_hash"@ {
        Some(e.prev_hash@)
    } else if col == "hash"@ {
        Some(e.hash@)
    } else {
        None
    }
}

/// How a store evaluates one condition on an entry's row. The condition's
/// text is a column name followed by ` = `, ` > ` or ` < `; the row's value
/// in that column is compared with the parameter, `later(x, y)` being the
/// store's order of texts (x after y). A NULL column satisfies nothing.
pub open spec fn condition_holds(
    c: (Seq<char>, Seq<char>),
    e: AuditEntry,
    later: spec_fn(Seq<char>, Seq<char>) -> bool,
) -> bool {
    let col = c.0.take(c.0.len() - 3);
    let op = c.0[c.0.len() - 2];
    c.0.len() >= 3 && c.0[c.0.len() - 3] == ' ' && c.0[c.0.len() - 1] == ' ' && match column_value(
        e,
        col,
    ) {
        None => false,
        Some(v) => if op == '=' {
            v == c.1
        } else if op == '>' {
            later(v, c.1)
        } else if op == '<' {
            later(c.1, v)
        } else {
            false
        },
    }
}

/// Whether every condition holds on an entry's row.
pub open spec fn all_hold(
    cs: Seq<(Seq<char>, Seq<char>)>,
    e: AuditEntry,
    later: spec_fn(Seq<char>, Seq<char>) -> bool,
) -> bool {
    forall|i: int| 0 <= i < cs.len() ==> #[trigger] condition_holds(cs[i], e, later)
}

proof fn lemma_all_hold_concat(
    a: Seq<(Seq<char>, Seq<char>)>,
    b: Seq<(Seq<char>, Seq<char>)>,
    e: AuditEntry,
    later: spec_fn(Seq<char>, Seq<char>) -> bool,
)
    ensures
        all_hold(a + b, e, later) == (all_hold(a, e, later) && all_hold(b, e, later)),
{
    if all_hold(a, e, later) && all_hold(b, e, later) {
        assert forall|i: int| 0 <= i < (a + b).len() implies #[trigger] condition_holds(
            (a + b)[i],
            e,
            later,
        ) by {
            if i >= a.len() {
                assert((a + b)[i] == b[i - a.len()]);
                assert(condition_holds(b[i - a.len()], e, later));
            } else {
                assert(condition_holds(a[i], e, later));
            }
        }
    }
    if all_hold(a + b, e, later) {
        assert forall|i: int| 0 <= i < a.len() implies #[trigger] condition_holds(a[i], e, later) by {
            assert((a + b)[i] == a[i]);
            assert(condition_holds((a + b)[i], e, later));
        }
        assert forall|i: int| 0 <= i < b.len() implies #[trigger] condition_holds(b[i], e, later) by {
            assert((a + b)[a.len() + i] == b[i]);
            assert(condition_holds((a + b)[a.len() + i], e, later));
        }
    }
}

proof fn lemma_all_hold_opt(
    set: bool,
    column: Seq<char>,
    value: Seq<char>,
    e: AuditEntry,
    later: spec_fn(Seq<char>, Seq<char>) -> bool,
)
    ensures
        all_hold(opt_cond(set, column, value), e, later) == (set ==> condition_holds(
            (column, value),
            e,
            later,
        )),
{
    if set {
        assert(opt_cond(set, column, value)[0] == (column, value));
    }
}

/// The meaning of each condition text a filter produces.
proof fn lemma_condition_meanings(
    e: AuditEntry,
    v: Seq<char>,
    later: spec_fn(Seq<char>, Seq<char>) -> bool,
)
    ensures
        condition_holds(("source = "@, v), e, later) == (e.source@ == v),
        condition_holds(("severity = "@, v), e, later) == (e.severity.name() == v),
        condition_holds(("agent_id = "@, v), e, later) == (e.agent_id matches Some(x) && x@ == v),
        condition_holds(("action = "@, v), e, later) == (e.action@ == v),
        condition_holds(("timestamp > "@, v), e, later) == later(e.timestamp.text(), v),
        condition_holds(("timestamp < "@, v), e, later) == later(v, e.timestamp.text()),
{
    reveal_strlit("source = ");
    reveal_strlit("severity = ");
    reveal_strlit("agent_id = ");
    reveal_strlit("action = ");
    reveal_strlit("timestamp > ");
    reveal_strlit("timestamp < ");
    reveal_strlit("id");
    reveal_strlit("timestamp");
    reveal_strlit("severity");
    reveal_strlit("source");
    reveal_strlit("action");
    reveal_strlit("details");
    reveal_strlit("agent_id");
    reveal_strlit("prev_hash");
    reveal_strlit("hash");
    assert("source = "@.take(6) =~= "source"@);
    assert("severity = "@.take(8) =~= "severity"@);
    assert("agent_id = "@.take(8) =~= "agent_id"@);
    assert("action = "@.take(6) =~= "action"@);
    assert("timestamp > "@.take(9) =~= "timestamp"@);
    assert("timestamp < "@.take(9) =~= "timestamp"@);
    assert("source"@ != "id"@ && "source"@ != "timestamp"@ && "source"@ != "severity"@);
    assert("severity"@ != "id"@ && "severity"@ != "timestamp"@);
    assert("agent_id"@[0] != "severity"@[0] && "agent_id"@[1] != "action"@[1]);
    assert("agent_id"@ != "id"@ && "agent_id"@ != "timestamp"@ && "agent_id"@ != "severity"@
        && "agent_id"@ != "source"@ && "agent_id"@ != "action"@ && "agent_id"@ != "details"@);
    assert("action"@[0] != "source"@[0]);
    assert("action"@ != "id"@ && "action"@ != "timestamp"@ && "action"@ != "severity"@
        && "action"@ != "source"@);
    assert("timestamp"@ != "id"@);
}

/// The SQL store's query selects what the in-memory filter selects: for
/// every filter and entry, the conditions of the query text, evaluated on
/// the entry's stored row, all hold exactly when the filter admits the
/// entry. Equality criteria compare the row's text; `after` asks for a
/// stored timestamp later than the given one and `before` for an earlier
/// one, where the store's order of the timestamp texts involved agrees
/// with the order of their instants.
pub proof fn lemma_sql_conditions_match_filter(
    f: QueryFilter,
    e: AuditEntry,
    later: spec_fn(Seq<char>, Seq<char>) -> bool,
)
    requires
        f.after matches Some(t) ==> later(e.timestamp.text(), t.text()) == key_after(
            e.timestamp.key(),
            t.key(),
        ) && later(t.text(), e.timestamp.text()) == key_after(t.key(), e.timestamp.key()),
        f.before matches Some(t) ==> later(e.timestamp.text(), t.text()) == key_after(
            e.timestamp.key(),
            t.key(),
        ) && later(t.text(), e.timestamp.text()) == key_after(t.key(), e.timestamp.key()),
    ensures
        all_hold(filter_conditions(f), e, later) == admits(f, e),
{
    let src = match f.source {
        Some(s) => s@,
        None => Seq::empty(),
    };
    let sev = match f.severity {
        Some(v) => v.name(),
        None => Seq::empty(),
    };
    let agent = match f.agent_id {
        Some(a) => a@,
        None => Seq::empty(),
    };
    let act = match f.action {
        Some(a) => a@,
        None => Seq::empty(),
    };
    let aft = match f.after {
        Some(t) => t.text(),
        None => Seq::empty(),
    };
    let bef = match f.before {
        Some(t) => t.text(),
        None => Seq::empty(),
    };
    let c1 = opt_cond(f.source is Some, "source = "@, src);
    let c2 = opt_cond(f.severity is Some, "severity = "@, sev);
    let c3 = opt_cond(f.agent_id is Some, "agent_id = "@, agent);
    let c4 = opt_cond(f.action is Some, "action = "@, act);
    let c5 = opt_cond(f.after is Some, "timestamp > "@, aft);
    let c6 = opt_cond(f.before is Some, "timestamp < "@, bef);
    lemma_all_hold_concat(c1 + c2 + c3 + c4 + c5, c6, e, later);
    lemma_all_hold_concat(c1 + c2 + c3 + c4, c5, e, later);
    lemma_all_hold_concat(c1 + c2 + c3, c4, e, later);
    lemma_all_hold_concat(c1 + c2, c3, e, later);
    lemma_all_hold_concat(c1, c2, e, later);
    lemma_all_hold_opt(f.source is Some, "source = "@, src, e, later);
    lemma_all_hold_opt(f.severity is Some, "severity = "@, sev, e, later);
    lemma_all_hold_opt(f.agent_id is Some, "agent_id = "@, agent, e, later);
    lemma_all_hold_opt(f.action is Some, "action = "@, act, e, later);
    lemma_all_hold_opt(f.after is Some, "timestamp > "@, aft, e, later);
    lemma_all_hold_opt(f.before is Some, "timestamp < "@, bef, e, later);
    lemma_condition_meanings(e, src, later);
    lemma_condition_meanings(e, sev, later);
    lemma_condition_meanings(e, agent, later);
    lemma_condition_meanings(e, act, later);
    lemma_condition_meanings(e, aft, later);
    lemma_condition_meanings(e, bef, later);
    if let Some(v) = f.severity {
        if e.severity != v {
            crate::entry::lemma_severity_names_distinct(e.severity, v);
        }
    }
}

} // verus!
