//! What the viewer asks the store: the text of the group-list and message-list queries
//! with their parameters, and where a message's attachment is found on disk.

use vstd::prelude::*;
use vstd::string::StringExecFns;

use crate::datetime::{decimal_digits, digit_char};
use crate::models::opt_text;
use crate::takeout::{dm_prefix, group_id_of, group_kind_of, space_prefix, GroupKind};
use crate::text::{has_prefix, lemma_strip_all_prefix_stops, string_of};

verus! {

/// The group list, most recently active first, each group named by its own name or else
/// by a member other than the owner, with its message count.
pub const GROUPS_SQL: &'static str = "SELECT g.id, g.google_id, COALESCE(g.name, (SELECT u.name FROM users u JOIN group_memberships gm ON u.id = gm.user_id WHERE gm.group_id = g.id AND u.is_main_user = 0 LIMIT 1)) as resolved_name, g.type, (SELECT COUNT(*) FROM messages WHERE group_id = g.id) as msg_count, g.last_message_at FROM groups g ORDER BY g.last_message_at DESC NULLS LAST";

/// The group list restricted to groups with a member whose name or address, or whose own
/// name, matches the `LIKE` pattern `?1`.
pub const GROUPS_SEARCH_SQL: &'static str = "SELECT g.id, g.google_id, COALESCE(g.name, (SELECT u.name FROM users u JOIN group_memberships gm ON u.id = gm.user_id WHERE gm.group_id = g.id AND u.is_main_user = 0 LIMIT 1)) as resolved_name, g.type, (SELECT COUNT(*) FROM messages WHERE group_id = g.id) as msg_count, g.last_message_at FROM groups g WHERE g.id IN (SELECT group_id FROM group_memberships gm JOIN users u ON gm.user_id = u.id WHERE u.name LIKE ?1 OR u.email LIKE ?1) OR g.name LIKE ?1 ORDER BY g.last_message_at DESC NULLS LAST";

/// A page of a group's messages, newest first, with their authors.
pub const MESSAGES_SQL: &'static str = "SELECT m.id, u.name, u.email, m.text, m.created_at, m.topic_id, u.is_main_user FROM messages m JOIN users u ON m.user_id = u.id WHERE m.group_id = ?1 ORDER BY m.created_at DESC LIMIT ?2 OFFSET ?3";

/// A page of a group's messages whose text matches the `LIKE` pattern `?2`, newest first.
pub const MESSAGES_SEARCH_SQL: &'static str = "SELECT m.id, u.name, u.email, m.text, m.created_at, m.topic_id, u.is_main_user FROM messages m JOIN users u ON m.user_id = u.id WHERE m.group_id = ?1 AND m.text LIKE ?2 ORDER BY m.created_at DESC LIMIT ?3 OFFSET ?4";

/// What `str::to_lowercase` makes of a text (Unicode lower-case mapping).
pub uninterp spec fn lowercase_text(s: Seq<char>) -> Seq<char>;

/// `str::to_lowercase`. The Unicode lower-case mapping is not restated: the contract
/// names its result as a function of the text, and says that it is empty exactly when
/// the text is (every character maps to one or more characters).
#[verifier::external_body]
fn lowercase(s: &str) -> (r: String)
    ensures
        r@ == lowercase_text(s@),
        (r@.len() == 0) == (s@.len() == 0),
{
    s.to_lowercase()
}

/// A whole number in decimal, with a minus sign when negative.
pub open spec fn decimal_text(n: int) -> Seq<char> {
    if n < 0 {
        seq!['-'] + decimal_digits((-n) as nat)
    } else {
        decimal_digits(n as nat)
    }
}

/// A decimal digit.
fn digit(d: u64) -> (c: char)
    requires
        d < 10,
    ensures
        c == digit_char(d as int),
{
    let b: u8 = 48 + (d as u8);
    b as char
}

/// A whole number in decimal, with a minus sign when negative (as `i64::to_string`
/// writes it).
pub fn decimal(n: i64) -> (r: String)
    ensures
        r@ == decimal_text(n as int),
{
    let magnitude: u64 = if n < 0 {
        (0i128 - (n as i128)) as u64
    } else {
        n as u64
    };
    let mut m: u64 = magnitude;
    let mut digits: Vec<char> = Vec::new();
    loop
        invariant_except_break
            decimal_digits(magnitude as nat) == decimal_digits(m as nat) + digits@,
        ensures
            digits@ == decimal_digits(magnitude as nat),
        decreases m,
    {
        let ghost before = digits@;
        digits.insert(0, digit(m % 10));
        assert(digits@ =~= seq![digit_char((m % 10) as int)] + before);
        if m < 10 {
            assert(decimal_digits(m as nat) =~= seq![digit_char((m % 10) as int)]);
            assert(decimal_digits(magnitude as nat) =~= digits@);
            break;
        }
        assert(decimal_digits(m as nat) == decimal_digits((m / 10) as nat).push(
            digit_char((m % 10) as int),
        ));
        assert(decimal_digits((m / 10) as nat).push(digit_char((m % 10) as int)) + before
            =~= decimal_digits((m / 10) as nat) + digits@);
        m = m / 10;
    }
    let mut out: Vec<char> = Vec::new();
    if n < 0 {
        out.push('-');
    }
    let mut k: usize = 0;
    let ghost start = out@;
    while k < digits.len()
        invariant
            k <= digits.len(),
            out@ == start + digits@.take(k as int),
        decreases digits.len() - k,
    {
        out.push(digits[k]);
        assert(digits@.take(k + 1) =~= digits@.take(k as int).push(digits@[k as int]));
        k = k + 1;
    }
    assert(digits@.take(digits.len() as int) =~= digits@);
    assert(magnitude as int == if n < 0 { -(n as int) } else { n as int });
    assert(out@ =~= decimal_text(n as int));
    string_of(&out)
}

/// The search text a request carries: the lower-cased query, empty when there is none
/// or it is empty.
pub open spec fn search_text(query: Option<Seq<char>>) -> Seq<char> {
    match query {
        Some(q) => if q.len() == 0 {
            Seq::empty()
        } else {
            lowercase_text(q)
        },
        None => Seq::empty(),
    }
}

/// The lower-cased search text of a request.
fn search_of(query: &Option<String>) -> (q: String)
    ensures
        q@ == search_text(opt_text(*query)),
{
    let q = match query {
        Some(s) => lowercase(s.as_str()),
        None => {
            proof {
                reveal_strlit("");
            }
            lowercase("")
        },
    };
    proof {
        if q@.len() == 0 {
            assert(q@ =~= Seq::<char>::empty());
        }
    }
    q
}

/// The `LIKE` pattern of a search: the search text between `%` wildcards. The text
/// goes in as it is, so `%` and `_` in it act as wildcards too.
pub open spec fn contains_pattern(q: Seq<char>) -> Seq<char> {
    seq!['%'] + q + seq!['%']
}

/// The `LIKE` pattern of a search text: the text between `%` wildcards.
pub fn contains_pattern_of(q: &String) -> (p: String)
    ensures
        p@ == contains_pattern(q@),
        p@.len() == q@.len() + 2,
        p@[0] == '%',
        p@[q@.len() + 1 as int] == '%',
        p@.subrange(1, q@.len() + 1 as int) == q@,
{
    let mut pattern = "%".to_owned();
    pattern.append(q.as_str());
    pattern.append("%");
    proof {
        reveal_strlit("%");
    }
    assert(pattern@ =~= contains_pattern(q@));
    assert(pattern@.subrange(1, q@.len() + 1 as int) =~= q@);
    pattern
}

/// A query and its parameters, in order.
pub struct Query {
    pub sql: String,
    pub params: Vec<String>,
}

/// The group-list query: every group without a search text, else the groups with a
/// member whose name or address, or whose own name, matches the lower-cased search text
/// between `%` wildcards under `LIKE`.
/// The text is passed as a parameter (its `LIKE` pattern), never written into the query.
pub fn groups_query(query: &Option<String>) -> (r: Query)
    ensures
        ({
            let q = search_text(opt_text(*query));
            if q.len() == 0 {
                r.sql@ == GROUPS_SQL@ && r.params@.len() == 0
            } else {
                &&& r.sql@ == GROUPS_SEARCH_SQL@
                &&& r.params@.len() == 1
                &&& r.params@[0]@ == contains_pattern(q)
                &&& r.params@[0]@ == seq!['%'] + q + seq!['%']
            }
        }),
{
    let q = search_of(query);
    let mut params: Vec<String> = Vec::new();
    if q.as_str().is_empty() {
        Query { sql: GROUPS_SQL.to_owned(), params }
    } else {
        params.push(contains_pattern_of(&q));
        Query { sql: GROUPS_SEARCH_SQL.to_owned(), params }
    }
}

/// The message-list query for one page of a group, and its parameters.
pub fn messages_query(group_id: i64, limit: i64, offset: i64, query: &Option<String>) -> (r: Query)
    ensures
        ({
            let q = search_text(opt_text(*query));
            if q.len() == 0 {
                &&& r.sql@ == MESSAGES_SQL@
                &&& r.params@.len() == 3
                &&& r.params@[0]@ == decimal_text(group_id as int)
                &&& r.params@[1]@ == decimal_text(limit as int)
                &&& r.params@[2]@ == decimal_text(offset as int)
            } else {
                &&& r.sql@ == MESSAGES_SEARCH_SQL@
                &&& r.params@.len() == 4
                &&& r.params@[0]@ == decimal_text(group_id as int)
                &&& r.params@[1]@ == contains_pattern(q)
                &&& r.params@[1]@ == seq!['%'] + q + seq!['%']
                &&& r.params@[2]@ == decimal_text(limit as int)
                &&& r.params@[3]@ == decimal_text(offset as int)
            }
        }),
{
    let q = search_of(query);
    let mut params: Vec<String> = Vec::new();
    params.push(decimal(group_id));
    if q.as_str().is_empty() {
        params.push(decimal(limit));
        params.push(decimal(offset));
        Query { sql: MESSAGES_SQL.to_owned(), params }
    } else {
        params.push(contains_pattern_of(&q));
        params.push(decimal(limit));
        params.push(decimal(offset));
        Query { sql: MESSAGES_SEARCH_SQL.to_owned(), params }
    }
}

/// The name of a group's directory in the export: its kind's label, a space, its id.
pub open spec fn group_dir_text(label: Seq<char>, google_id: Seq<char>) -> Seq<char> {
    label + seq![' '] + google_id
}

/// The name of a group's directory in the export, from a kind label and a group id.
pub fn group_dir_name(label: &str, google_id: &str) -> (name: String)
    ensures
        name@ == group_dir_text(label@, google_id@),
{
    let mut name = label.to_owned();
    name.append(" ");
    name.append(google_id);
    proof {
        reveal_strlit(" ");
    }
    name
}

/// The kind the message view assumes for a group when it looks for attachments in the
/// export: ids longer than eleven bytes belong to spaces, others to direct messages.
pub fn assumed_kind(google_id: &str) -> (k: GroupKind)
    ensures
        k == (if google_id.len() > 11 { GroupKind::Space } else { GroupKind::Dm }),
{
    if google_id.len() > 11 {
        GroupKind::Space
    } else {
        GroupKind::Dm
    }
}

/// Whether an attachment is read from the library's own media copy (copied there and
/// still present) rather than from the export.
pub fn use_managed_copy(is_copied: i32, managed_exists: bool) -> (b: bool)
    ensures
        b == (is_copied == 1 && managed_exists),
{
    is_copied == 1 && managed_exists
}

/// The prefix that announces a group kind in a directory name.
pub open spec fn kind_prefix(kind: GroupKind) -> Seq<char> {
    kind.label_text() + seq![' ']
}

/// A direct-message or space directory is found again from the kind and id stored for
/// it, as long as its name carries the kind's prefix only once.
pub proof fn lemma_group_dir_round_trip(dir_name: Seq<char>)
    requires
        group_kind_of(dir_name) != GroupKind::Unknown,
        !has_prefix(
            dir_name.skip(kind_prefix(group_kind_of(dir_name)).len() as int),
            kind_prefix(group_kind_of(dir_name)),
        ),
    ensures
        group_dir_text(group_kind_of(dir_name).label_text(), group_id_of(dir_name)) == dir_name,
{
    let kind = group_kind_of(dir_name);
    let p = kind_prefix(kind);
    if kind == GroupKind::Dm {
        assert(p =~= dm_prefix());
    } else {
        assert(p =~= space_prefix());
    }
    let rest = dir_name.skip(p.len() as int);
    lemma_strip_all_prefix_stops(dir_name, p);
    assert(group_id_of(dir_name) == rest);
    assert(dir_name.take(p.len() as int) == p);
    assert(group_dir_text(kind.label_text(), rest) =~= dir_name);
}


/// The pattern of a search text is the whole text between two `%` wildcards: two
/// characters longer, `%` at both ends, and the text itself in between.
pub proof fn lemma_contains_pattern_shape(q: Seq<char>)
    ensures
        contains_pattern(q).len() == q.len() + 2,
        contains_pattern(q)[0] == '%',
        contains_pattern(q)[q.len() + 1 as int] == '%',
        contains_pattern(q).subrange(1, q.len() + 1 as int) == q,
{
    assert(contains_pattern(q).subrange(1, q.len() + 1 as int) =~= q);
}

} // verus!
