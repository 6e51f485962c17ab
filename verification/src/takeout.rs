//! Import planning: what each group directory of an export becomes in the library's
//! store: its kind and id, its name and members, and its messages with their stored
//! dates, authors and attachments, plus the date of its latest message.

use vstd::prelude::*;

use crate::datetime::{
    google_date_iso, iso_text, lemma_iso_text_order, parse_google_date, written_before,
    DateTimeFields,
};
use crate::models::{
    copy_opt, opt_text, GoogleAttachment, GoogleGroupInfo, GoogleMessage, GoogleMessagesFile,
};
use crate::text::{
    chars_of, has_prefix, lemma_text_less_asymmetric, lemma_text_less_total,
    lemma_text_less_transitive, starts_with_chars, string_of, strip_all_prefix,
    strip_all_prefix_chars, text_greater, text_less,
};

verus! {

/// What kind of conversation a group directory holds.
#[derive(Clone, Copy, Debug, PartialEq, Eq, Structural)]
pub enum GroupKind {
    Dm,
    Space,
    Unknown,
}

impl GroupKind {
    /// The kind as it is stored and as it names directories.
    pub open spec fn label_text(self) -> Seq<char> {
        match self {
            GroupKind::Dm => seq!['D', 'M'],
            GroupKind::Space => seq!['S', 'p', 'a', 'c', 'e'],
            GroupKind::Unknown => seq!['U', 'n', 'k', 'n', 'o', 'w', 'n'],
        }
    }

    /// The stored label of the kind: "DM", "Space" or "Unknown".
    pub fn label(&self) -> (s: String)
        ensures
            s@ == self.label_text(),
    {
        let v: Vec<char> = match self {
            GroupKind::Dm => vec!['D', 'M'],
            GroupKind::Space => vec!['S', 'p', 'a', 'c', 'e'],
            GroupKind::Unknown => vec!['U', 'n', 'k', 'n', 'o', 'w', 'n'],
        };
        assert(v@ =~= self.label_text());
        string_of(&v)
    }
}

/// The prefix of a direct-message directory.
pub open spec fn dm_prefix() -> Seq<char> {
    seq!['D', 'M', ' ']
}

/// The prefix of a space directory.
pub open spec fn space_prefix() -> Seq<char> {
    seq!['S', 'p', 'a', 'c', 'e', ' ']
}

/// The kind of group a directory name announces.
pub open spec fn group_kind_of(dir_name: Seq<char>) -> GroupKind {
    if has_prefix(dir_name, dm_prefix()) {
        GroupKind::Dm
    } else if has_prefix(dir_name, space_prefix()) {
        GroupKind::Space
    } else {
        GroupKind::Unknown
    }
}

/// The group id a directory name carries: the name without its kind prefix (every
/// leading repetition of it), or the whole name for an unknown kind.
pub open spec fn group_id_of(dir_name: Seq<char>) -> Seq<char> {
    if has_prefix(dir_name, dm_prefix()) {
        strip_all_prefix(dir_name, dm_prefix())
    } else if has_prefix(dir_name, space_prefix()) {
        strip_all_prefix(dir_name, space_prefix())
    } else {
        dir_name
    }
}

/// A group directory's kind and id.
pub struct GroupDir {
    pub kind: GroupKind,
    pub google_id: String,
}

/// Reads a group directory's name: "DM <id>" is a direct message, "Space <id>" a space,
/// anything else a group of unknown kind whose id is the whole name.
pub fn classify_group_dir(dir_name: &str) -> (d: GroupDir)
    ensures
        d.kind == group_kind_of(dir_name@),
        d.google_id@ == group_id_of(dir_name@),
        has_prefix(dir_name@, seq!['D', 'M', ' ']) ==> d.kind == GroupKind::Dm,
        !has_prefix(dir_name@, seq!['D', 'M', ' ']) && has_prefix(
            dir_name@,
            seq!['S', 'p', 'a', 'c', 'e', ' '],
        ) ==> d.kind == GroupKind::Space,
        !has_prefix(dir_name@, seq!['D', 'M', ' ']) && !has_prefix(
            dir_name@,
            seq!['S', 'p', 'a', 'c', 'e', ' '],
        ) ==> d.kind == GroupKind::Unknown && d.google_id@ == dir_name@,
        d.kind == GroupKind::Dm ==> names_prefixed_id(
            dir_name@,
            seq!['D', 'M', ' '],
            d.google_id@,
        ),
        d.kind == GroupKind::Space ==> names_prefixed_id(
            dir_name@,
            seq!['S', 'p', 'a', 'c', 'e', ' '],
            d.google_id@,
        ),
{
    proof {
        lemma_strip_all_prefix_shape(dir_name@, dm_prefix());
        lemma_strip_all_prefix_shape(dir_name@, space_prefix());
        assert(dm_prefix() =~= seq!['D', 'M', ' ']);
        assert(space_prefix() =~= seq!['S', 'p', 'a', 'c', 'e', ' ']);
    }
    let name = chars_of(dir_name);
    let dm: Vec<char> = vec!['D', 'M', ' '];
    let space: Vec<char> = vec!['S', 'p', 'a', 'c', 'e', ' '];
    assert(dm@ =~= dm_prefix());
    assert(space@ =~= space_prefix());
    if starts_with_chars(&name, &dm) {
        let id = strip_all_prefix_chars(&name, &dm);
        GroupDir { kind: GroupKind::Dm, google_id: string_of(&id) }
    } else if starts_with_chars(&name, &space) {
        let id = strip_all_prefix_chars(&name, &space);
        GroupDir { kind: GroupKind::Space, google_id: string_of(&id) }
    } else {
        GroupDir { kind: GroupKind::Unknown, google_id: string_of(&name) }
    }
}

/// `p` written `k` times in a row.
pub open spec fn repeat(p: Seq<char>, k: nat) -> Seq<char>
    decreases k,
{
    if k == 0 {
        Seq::empty()
    } else {
        p + repeat(p, (k - 1) as nat)
    }
}

/// `name` is `id` behind one or more copies of `prefix`, and `id` does not itself start
/// with `prefix`.
pub open spec fn names_prefixed_id(name: Seq<char>, prefix: Seq<char>, id: Seq<char>) -> bool {
    &&& exists|k: nat| k >= 1 && name == #[trigger] repeat(prefix, k) + id
    &&& !has_prefix(id, prefix)
}

/// Removing every leading copy of a prefix leaves a text that the removed copies
/// precede, and that does not start with the prefix.
pub proof fn lemma_strip_all_prefix_shape(s: Seq<char>, p: Seq<char>)
    requires
        p.len() > 0,
    ensures
        !has_prefix(strip_all_prefix(s, p), p),
        exists|k: nat|
            #![trigger repeat(p, k)]
            s == repeat(p, k) + strip_all_prefix(s, p) && (has_prefix(s, p) ==> k >= 1),
    decreases s.len(),
{
    if has_prefix(s, p) {
        let rest = s.skip(p.len() as int);
        lemma_strip_all_prefix_shape(rest, p);
        let k = choose|k: nat|
            #![trigger repeat(p, k)]
            rest == repeat(p, k) + strip_all_prefix(rest, p) && (has_prefix(rest, p) ==> k >= 1);
        assert(repeat(p, k + 1) == p + repeat(p, k));
        assert(s =~= p + rest);
        assert(s =~= repeat(p, k + 1) + strip_all_prefix(s, p));
    } else {
        assert(s =~= repeat(p, 0) + s);
    }
}

/// Whether a person is the export's owner: their address equals the owner's address,
/// where two missing addresses count as equal.
pub fn is_main_user(main_email: &Option<String>, email: &Option<String>) -> (b: bool)
    ensures
        b == (opt_text(*main_email) == opt_text(*email)),
{
    match (main_email, email) {
        (Some(a), Some(e)) => *a == *e,
        (None, None) => true,
        _ => false,
    }
}

/// A person as the library stores them.
pub struct UserRow {
    pub name: String,
    pub email: Option<String>,
    pub user_type: String,
    pub is_main: bool,
}

impl UserRow {
    /// The row stands for the person with these details, seen by an owner with `main`.
    pub open spec fn describes(
        self,
        name: Seq<char>,
        email: Option<Seq<char>>,
        user_type: Seq<char>,
        main: Option<Seq<char>>,
    ) -> bool {
        &&& self.name@ == name
        &&& opt_text(self.email) == email
        &&& self.user_type@ == user_type
        &&& self.is_main == (main == email)
    }
}

/// The row for a person with these details.
pub fn user_row(name: &String, email: &Option<String>, user_type: &String, main_email: &Option<String>) -> (r: UserRow)
    ensures
        r.describes(name@, opt_text(*email), user_type@, opt_text(*main_email)),
        r.name@ == name@,
        opt_text(r.email) == opt_text(*email),
        r.user_type@ == user_type@,
        r.is_main == (opt_text(*main_email) == opt_text(*email)),
{
    UserRow {
        name: name.clone(),
        email: copy_opt(email),
        user_type: user_type.clone(),
        is_main: is_main_user(main_email, email),
    }
}

/// What a group directory contributes before its messages: the group itself and its
/// members.
pub struct GroupHeader {
    pub kind: GroupKind,
    pub google_id: String,
    pub name: Option<String>,
    pub members: Vec<UserRow>,
}

/// The group and member rows of a group directory, from its name and its readable
/// `group_info.json` (`None` when the file is missing or unreadable, which leaves the
/// group unnamed and without members).
pub fn plan_group(dir_name: &str, info: &Option<GoogleGroupInfo>, main_email: &Option<String>) -> (h: GroupHeader)
    ensures
        h.kind == group_kind_of(dir_name@),
        h.google_id@ == group_id_of(dir_name@),
        match *info {
            Some(i) => {
                &&& opt_text(h.name) == opt_text(i.name)
                &&& h.members.len() == i.members.len()
                &&& forall|k: int|
                    0 <= k < h.members.len() ==> (#[trigger] h.members@[k]).describes(
                        i.members@[k].name@,
                        opt_text(i.members@[k].email),
                        i.members@[k].user_type@,
                        opt_text(*main_email),
                    )
                &&& forall|k: int|
                    0 <= k < h.members.len() ==> {
                        &&& (#[trigger] h.members@[k]).name@ == i.members@[k].name@
                        &&& opt_text(h.members@[k].email) == opt_text(i.members@[k].email)
                        &&& h.members@[k].user_type@ == i.members@[k].user_type@
                        &&& h.members@[k].is_main == (opt_text(*main_email) == opt_text(
                            i.members@[k].email,
                        ))
                    }
            },
            None => h.name is None && h.members.len() == 0,
        },
{
    let dir = classify_group_dir(dir_name);
    let mut members: Vec<UserRow> = Vec::new();
    let name = match info {
        Some(i) => {
            let mut k: usize = 0;
            while k < i.members.len()
                invariant
                    k <= i.members.len(),
                    members.len() == k,
                    forall|j: int|
                        0 <= j < k ==> (#[trigger] members@[j]).describes(
                            i.members@[j].name@,
                            opt_text(i.members@[j].email),
                            i.members@[j].user_type@,
                            opt_text(*main_email),
                        ),
                    forall|j: int|
                        0 <= j < k ==> {
                            &&& (#[trigger] members@[j]).name@ == i.members@[j].name@
                            &&& opt_text(members@[j].email) == opt_text(i.members@[j].email)
                            &&& members@[j].user_type@ == i.members@[j].user_type@
                            &&& members@[j].is_main == (opt_text(*main_email) == opt_text(
                                i.members@[j].email,
                            ))
                        },
                decreases i.members.len() - k,
            {
                let m = &i.members[k];
                members.push(user_row(&m.name, &m.email, &m.user_type, main_email));
                k = k + 1;
            }
            copy_opt(&i.name)
        },
        None => None,
    };
    GroupHeader { kind: dir.kind, google_id: dir.google_id, name, members }
}

/// The date under which a message is stored: its normalised form, or the text as the
/// export wrote it when it does not parse.
pub open spec fn stored_date(raw: Seq<char>) -> Seq<char> {
    match google_date_iso(raw) {
        Some(s) => s,
        None => raw,
    }
}

/// The date under which a message with this export date is stored.
pub fn stored_message_date(raw: &String) -> (s: String)
    ensures
        s@ == stored_date(raw@),
{
    match parse_google_date(raw.as_str()) {
        Some(iso) => iso,
        None => raw.clone(),
    }
}

/// The latest of `dates` as the import finds it: walking in order, a date replaces the
/// latest so far when it sorts after it.
pub open spec fn latest_date(dates: Seq<Seq<char>>) -> Option<Seq<char>>
    decreases dates.len(),
{
    if dates.len() == 0 {
        None
    } else {
        let last = dates.last();
        match latest_date(dates.drop_last()) {
            None => Some(last),
            Some(p) => if text_less(p, last) {
                Some(last)
            } else {
                Some(p)
            },
        }
    }
}

/// A message as the library stores it.
pub struct MessageRow {
    pub author: UserRow,
    pub text: Option<String>,
    pub created_at: String,
    pub topic_id: Option<String>,
    pub message_id: String,
    pub attachments: Vec<GoogleAttachment>,
}

impl MessageRow {
    /// The row stands for message `m`, seen by an owner with `main`.
    pub open spec fn describes(self, m: GoogleMessage, main: Option<Seq<char>>) -> bool {
        &&& self.author.describes(
            m.creator.name@,
            opt_text(m.creator.email),
            m.creator.user_type@,
            main,
        )
        &&& opt_text(self.text) == opt_text(m.text)
        &&& self.created_at@ == stored_date(m.created_date@)
        &&& opt_text(self.topic_id) == opt_text(m.topic_id)
        &&& self.message_id@ == m.message_id@
        &&& match m.attached_files {
            Some(files) => {
                &&& self.attachments.len() == files.len()
                &&& forall|k: int|
                    0 <= k < files.len() ==> (#[trigger] self.attachments@[k]).names()
                        == files@[k].names()
            },
            None => self.attachments.len() == 0,
        }
    }
}

/// The stored dates of `messages`, in order.
pub open spec fn stored_dates(messages: Seq<GoogleMessage>) -> Seq<Seq<char>> {
    messages.map_values(|m: GoogleMessage| stored_date(m.created_date@))
}

/// What a group's messages contribute: one row per message, in order, and the date the
/// group is listed under.
pub struct MessagesPlan {
    pub rows: Vec<MessageRow>,
    pub last_message_at: Option<String>,
}

/// Copies of a message's attachments (none when it lists none).
fn copy_attachments(files: &Option<Vec<GoogleAttachment>>) -> (r: Vec<GoogleAttachment>)
    ensures
        match *files {
            Some(v) => {
                &&& r.len() == v.len()
                &&& forall|k: int| 0 <= k < v.len() ==> (#[trigger] r@[k]).names() == v@[k].names()
            },
            None => r.len() == 0,
        },
{
    let mut out: Vec<GoogleAttachment> = Vec::new();
    match files {
        Some(v) => {
            let mut k: usize = 0;
            while k < v.len()
                invariant
                    k <= v.len(),
                    out.len() == k,
                    forall|j: int| 0 <= j < k ==> (#[trigger] out@[j]).names() == v@[j].names(),
                decreases v.len() - k,
            {
                out.push(v[k].copy());
                k = k + 1;
            }
        },
        None => {},
    }
    out
}

/// The views of a list of strings.
pub open spec fn texts(v: Seq<String>) -> Seq<Seq<char>> {
    v.map_values(|s: String| s@)
}

/// The latest of a group's stored dates, as the import finds it (see `latest_date`).
pub fn latest_stored_date(dates: &Vec<String>) -> (r: Option<String>)
    ensures
        opt_text(r) == latest_date(texts(dates@)),
        r is Some <==> dates.len() > 0,
        r matches Some(l) ==> {
            &&& exists|i: int| 0 <= i < dates.len() && (#[trigger] dates@[i])@ == l@
            &&& forall|i: int| 0 <= i < dates.len() ==> !text_less(l@, (#[trigger] dates@[i])@)
        },
{
    proof {
        lemma_latest_date_is_maximum(texts(dates@));
        assert(forall|i: int| 0 <= i < dates.len() ==> texts(dates@)[i] == (#[trigger] dates@[i])@);
    }
    let ghost all = texts(dates@);
    let mut latest: Option<Vec<char>> = None;
    let mut i: usize = 0;
    while i < dates.len()
        invariant
            i <= dates.len(),
            all == texts(dates@),
            match latest {
                Some(v) => latest_date(all.take(i as int)) == Some(v@),
                None => latest_date(all.take(i as int)) is None,
            },
        decreases dates.len() - i,
    {
        let date_chars = chars_of(dates[i].as_str());
        assert(all.take(i + 1).drop_last() =~= all.take(i as int));
        assert(all.take(i + 1).last() == dates@[i as int]@);
        let replace = match &latest {
            None => true,
            Some(prev) => text_greater(&date_chars, prev),
        };
        if replace {
            latest = Some(date_chars);
        }
        i = i + 1;
    }
    assert(all.take(i as int) =~= all);
    match latest {
        Some(v) => Some(string_of(&v)),
        None => None,
    }
}

/// The row for message `m`, stored under `created_at`.
pub fn message_row(m: &GoogleMessage, created_at: String, main_email: &Option<String>) -> (r: MessageRow)
    ensures
        r.author.name@ == m.creator.name@,
        opt_text(r.author.email) == opt_text(m.creator.email),
        r.author.user_type@ == m.creator.user_type@,
        r.author.is_main == (opt_text(*main_email) == opt_text(m.creator.email)),
        r.author.describes(
            m.creator.name@,
            opt_text(m.creator.email),
            m.creator.user_type@,
            opt_text(*main_email),
        ),
        opt_text(r.text) == opt_text(m.text),
        r.created_at == created_at,
        opt_text(r.topic_id) == opt_text(m.topic_id),
        r.message_id@ == m.message_id@,
        match m.attached_files {
            Some(files) => {
                &&& r.attachments.len() == files.len()
                &&& forall|k: int|
                    0 <= k < files.len() ==> (#[trigger] r.attachments@[k]).names()
                        == files@[k].names()
            },
            None => r.attachments.len() == 0,
        },
{
    MessageRow {
        author: user_row(&m.creator.name, &m.creator.email, &m.creator.user_type, main_email),
        text: copy_opt(&m.text),
        created_at,
        topic_id: copy_opt(&m.topic_id),
        message_id: m.message_id.clone(),
        attachments: copy_attachments(&m.attached_files),
    }
}

/// The rows of a group's messages and the date of its latest message.
pub fn plan_messages(file: &GoogleMessagesFile, main_email: &Option<String>) -> (p: MessagesPlan)
    ensures
        p.rows.len() == file.messages.len(),
        forall|i: int|
            0 <= i < p.rows.len() ==> (#[trigger] p.rows@[i]).describes(
                file.messages@[i],
                opt_text(*main_email),
            ),
        opt_text(p.last_message_at) == latest_date(stored_dates(file.messages@)),
        forall|i: int|
            0 <= i < p.rows.len() ==> {
                &&& (#[trigger] p.rows@[i]).author.name@ == file.messages@[i].creator.name@
                &&& opt_text(p.rows@[i].author.email) == opt_text(file.messages@[i].creator.email)
                &&& p.rows@[i].author.user_type@ == file.messages@[i].creator.user_type@
                &&& p.rows@[i].author.is_main == (opt_text(*main_email) == opt_text(
                    file.messages@[i].creator.email,
                ))
                &&& p.rows@[i].message_id@ == file.messages@[i].message_id@
            },
        p.last_message_at is Some <==> file.messages.len() > 0,
        p.last_message_at matches Some(l) ==> {
            &&& exists|i: int| 0 <= i < p.rows.len() && (#[trigger] p.rows@[i]).created_at@ == l@
            &&& forall|i: int|
                0 <= i < p.rows.len() ==> !text_less(l@, (#[trigger] p.rows@[i]).created_at@)
        },
{
    let mut rows: Vec<MessageRow> = Vec::new();
    let mut dates: Vec<String> = Vec::new();
    let mut i: usize = 0;
    while i < file.messages.len()
        invariant
            i <= file.messages.len(),
            rows.len() == i,
            dates.len() == i,
            forall|j: int|
                0 <= j < i ==> (#[trigger] rows@[j]).describes(
                    file.messages@[j],
                    opt_text(*main_email),
                ),
            forall|j: int| 0 <= j < i ==> (#[trigger] dates@[j])@ == rows@[j].created_at@,
            forall|j: int|
                0 <= j < i ==> {
                    &&& (#[trigger] rows@[j]).author.name@ == file.messages@[j].creator.name@
                    &&& opt_text(rows@[j].author.email) == opt_text(file.messages@[j].creator.email)
                    &&& rows@[j].author.user_type@ == file.messages@[j].creator.user_type@
                    &&& rows@[j].author.is_main == (opt_text(*main_email) == opt_text(
                        file.messages@[j].creator.email,
                    ))
                    &&& rows@[j].message_id@ == file.messages@[j].message_id@
                },
        decreases file.messages.len() - i,
    {
        let m = &file.messages[i];
        let created_at = stored_message_date(&m.created_date);
        dates.push(created_at.clone());
        rows.push(message_row(m, created_at, main_email));
        i = i + 1;
    }
    assert(texts(dates@) =~= stored_dates(file.messages@));
    let last_message_at = latest_stored_date(&dates);
    proof {
        if let Some(l) = &last_message_at {
            let k = choose|k: int| 0 <= k < dates.len() && (#[trigger] dates@[k])@ == l@;
            assert(rows@[k].created_at@ == l@);
            assert forall|j: int| 0 <= j < rows.len() implies !text_less(
                l@,
                (#[trigger] rows@[j]).created_at@,
            ) by {
                assert(dates@[j]@ == rows@[j].created_at@);
            }
        }
    }
    MessagesPlan { rows, last_message_at }
}

/// The date a group is listed under is one of its messages' dates and no message date
/// sorts after it; a group has such a date exactly when it has messages.
pub proof fn lemma_latest_date_is_maximum(dates: Seq<Seq<char>>)
    ensures
        latest_date(dates) is None <==> dates.len() == 0,
        latest_date(dates) matches Some(l) ==> {
            &&& dates.contains(l)
            &&& forall|i: int| 0 <= i < dates.len() ==> !text_less(l, #[trigger] dates[i])
        },
    decreases dates.len(),
{
    if dates.len() > 0 {
        let prev = dates.drop_last();
        let last = dates.last();
        lemma_latest_date_is_maximum(prev);
        assert(forall|i: int| 0 <= i < prev.len() ==> prev[i] == #[trigger] dates[i]);
        match latest_date(prev) {
            None => {
                assert(dates.len() == 1);
                assert(dates[0] == last);
                crate::text::lemma_text_less_irreflexive(last);
            },
            Some(p) => {
                let j = choose|j: int| 0 <= j < prev.len() && prev[j] == p;
                if text_less(p, last) {
                    assert(dates[dates.len() - 1] == last);
                    assert forall|i: int| 0 <= i < dates.len() implies !text_less(
                        last,
                        #[trigger] dates[i],
                    ) by {
                        if i < dates.len() - 1 {
                            let d = dates[i];
                            assert(!text_less(p, prev[i]));
                            lemma_text_less_total(d, p);
                            if text_less(last, d) {
                                if d == p {
                                    lemma_text_less_asymmetric(p, last);
                                } else {
                                    lemma_text_less_transitive(last, d, p);
                                    lemma_text_less_asymmetric(p, last);
                                }
                            }
                        } else {
                            crate::text::lemma_text_less_irreflexive(last);
                        }
                    }
                } else {
                    assert(dates[j] == p);
                    assert forall|i: int| 0 <= i < dates.len() implies !text_less(
                        p,
                        #[trigger] dates[i],
                    ) by {
                        if i < dates.len() - 1 {
                            assert(!text_less(p, prev[i]));
                        }
                    }
                }
            },
        }
    }
}


/// When every message date of a group is in the stored `YYYY-MM-DD HH:MM:SS` form (years
/// 0 to 9999), the group is listed under the date of a message that no other message
/// comes after.
pub proof fn lemma_latest_date_is_chronologically_last(moments: Seq<DateTimeFields>)
    requires
        moments.len() > 0,
        forall|i: int|
            0 <= i < moments.len() ==> (#[trigger] moments[i]).valid() && 0 <= moments[i].year
                <= 9999,
    ensures
        exists|k: int|
            {
                &&& 0 <= k < moments.len()
                &&& latest_date(moments.map_values(|f: DateTimeFields| iso_text(f))) == Some(
                    iso_text(moments[k]),
                )
                &&& forall|i: int|
                    0 <= i < moments.len() ==> !written_before(moments[k], #[trigger] moments[i])
            },
{
    let dates = moments.map_values(|f: DateTimeFields| iso_text(f));
    lemma_latest_date_is_maximum(dates);
    let l = latest_date(dates)->0;
    let k = choose|k: int| 0 <= k < dates.len() && dates[k] == l;
    assert forall|i: int| 0 <= i < moments.len() implies !written_before(
        moments[k],
        #[trigger] moments[i],
    ) by {
        assert(!text_less(l, dates[i]));
        lemma_iso_text_order(moments[k], moments[i]);
    }
    assert(latest_date(dates) == Some(iso_text(moments[k])));
}


/// Every directory name starting with "DM " is a direct message and every other one
/// starting with "Space " a space, whatever follows; only a name with neither prefix is
/// of unknown kind, and its id is the whole name. A DM or space id is what follows the
/// leading copies of the prefix, and does not itself start with the prefix.
pub proof fn lemma_group_kind_by_prefix(name: Seq<char>)
    ensures
        has_prefix(name, seq!['D', 'M', ' ']) ==> group_kind_of(name) == GroupKind::Dm
            && names_prefixed_id(name, seq!['D', 'M', ' '], group_id_of(name)),
        !has_prefix(name, seq!['D', 'M', ' ']) && has_prefix(
            name,
            seq!['S', 'p', 'a', 'c', 'e', ' '],
        ) ==> group_kind_of(name) == GroupKind::Space && names_prefixed_id(
            name,
            seq!['S', 'p', 'a', 'c', 'e', ' '],
            group_id_of(name),
        ),
        !has_prefix(name, seq!['D', 'M', ' ']) && !has_prefix(
            name,
            seq!['S', 'p', 'a', 'c', 'e', ' '],
        ) ==> group_kind_of(name) == GroupKind::Unknown && group_id_of(name) == name,
{
    assert(dm_prefix() =~= seq!['D', 'M', ' ']);
    assert(space_prefix() =~= seq!['S', 'p', 'a', 'c', 'e', ' ']);
    lemma_strip_all_prefix_shape(name, dm_prefix());
    lemma_strip_all_prefix_shape(name, space_prefix());
}

} // verus!
