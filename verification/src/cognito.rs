//! The reader around one pool — its identifier and region — the options of
//! a run, and the result post-processor: sorting by creation date, the
//! identifier/email/creation-date filter chain, and the CSV rendering.

use crate::dates::{
    displayable_timestamp, lemma_whole_days_nonneg, utc_display_of, whole_days,
};
use crate::models::{
    attr_has_value, creation_key, has_email, keys_text, spec_email, spec_username, values_text,
    AttributeType, UserType,
};
use crate::text::{first_in, lemma_first_in_found, lower_of, lowercase};
use vstd::multiset::Multiset;
use vstd::prelude::*;
use vstd::seq_lib::{to_multiset_insert, to_multiset_remove};

verus! {

broadcast use vstd::multiset::group_multiset_axioms;

proof fn lemma_empty_to_multiset<A>(s: Seq<A>)
    requires
        s.len() == 0,
    ensures
        s.to_multiset() =~= Multiset::<A>::empty(),
{
    vstd::seq_lib::to_multiset_len(s);
    vstd::multiset::lemma_multiset_empty_len(s.to_multiset());
}

/// The caller-supplied options of one run, unchanged for its duration.
#[derive(Clone, Debug)]
pub struct UserReaderOptions {
    /// Attribute names to fetch beyond the email, which always comes.
    pub attributes_to_get: Option<Vec<String>>,
    /// Total cap across all pages; unset means unbounded.
    pub limit_of_users: Option<u32>,
    /// Also fetch accounts that are not confirmed yet.
    pub show_unconfirmed_users: bool,
    /// Identifier list of the identifier filter; unset means no filtering.
    pub filtered_user_ids: Option<Vec<String>>,
    /// Keep only the listed identifiers instead of dropping them.
    pub include_user_ids: bool,
    /// Email list of the email filter; unset means no filtering.
    pub filtered_user_emails: Option<Vec<String>>,
    /// Keep only the listed emails instead of dropping them.
    pub include_user_emails: bool,
    /// Creation-date lower bound, whole seconds since the Unix epoch.
    pub created_at: Option<i64>,
}

/// `s` occurs in the list `l`.
pub open spec fn seq_contains_string(l: Seq<String>, s: Seq<char>) -> bool {
    exists|i: int| 0 <= i < l.len() && l[i]@ == s
}

/// The identifier filter: with no list every record passes; with a list,
/// a record passes exactly when whether its identifier occurs in the list
/// equals the include flag.
pub open spec fn id_keeps(o: UserReaderOptions, u: UserType) -> bool {
    match o.filtered_user_ids {
        None => true,
        Some(l) => seq_contains_string(l@, spec_username(u)) == o.include_user_ids,
    }
}

/// The record's email equals some list entry, ignoring case. A record
/// without an email attribute matches no entry at all.
pub open spec fn email_matches(l: Seq<String>, u: UserType) -> bool {
    has_email(u) && exists|i: int|
        0 <= i < l.len() && lower_of(#[trigger] l[i]@) == lower_of(spec_email(u))
}

/// The email filter, with the same polarity convention as the identifier
/// filter but a case-insensitive comparison.
pub open spec fn email_keeps(o: UserReaderOptions, u: UserType) -> bool {
    match o.filtered_user_emails {
        None => true,
        Some(l) => email_matches(l@, u) == o.include_user_emails,
    }
}

/// The creation-date cutoff: a record passes when the difference from the
/// cutoff, truncated to whole days, is non-negative — on or after the
/// cutoff, or earlier the same day at day resolution.
pub open spec fn cutoff_keeps(o: UserReaderOptions, u: UserType) -> bool {
    match o.created_at {
        None => true,
        Some(cut) => whole_days(creation_key(u) - cut) >= 0,
    }
}

/// The whole filter chain: every configured filter must pass.
pub open spec fn keeps(o: UserReaderOptions, u: UserType) -> bool {
    id_keeps(o, u) && email_keeps(o, u) && cutoff_keeps(o, u)
}

/// A record created exactly at the cutoff instant is kept, and so is one
/// created up to a day minus a second earlier — the same day at day
/// resolution; anything older is dropped.
pub proof fn lemma_cutoff_boundary(o: UserReaderOptions, u: UserType, cut: i64, t: i64)
    requires
        o.created_at == Some(cut),
        u.user_create_date == Some(t),
    ensures
        cutoff_keeps(o, u) <==> t >= cut - 86399,
{
    lemma_whole_days_nonneg(t - cut);
}

/// The region prefix of a pool identifier: everything before the first
/// `_`, or the whole identifier when it has none.
pub open spec fn region_of(s: Seq<char>) -> Seq<char> {
    s.subrange(0, first_in(s, '_'))
}

/// Reads one pool: its identifier and the region taken from it. The
/// network client around it is the caller's affair.
pub struct UserReader {
    pub aws_pool_id: String,
    pub aws_region: String,
}

impl UserReader {
    /// A reader for the pool, its region extracted from the identifier.
    pub fn new(aws_pool_id: String) -> (r: UserReader)
        ensures
            r.aws_pool_id == aws_pool_id,
            r.aws_region@ == region_of(aws_pool_id@),
    {
        let aws_region = Self::extract_region(aws_pool_id.as_str());
        UserReader { aws_pool_id, aws_region }
    }

    /// The region prefix of a pool identifier, everything before the
    /// first `_`.
    pub fn extract_region(pool_id: &str) -> (r: String)
        ensures
            r@ == region_of(pool_id@),
    {
        let n = pool_id.unicode_len();
        let mut i: usize = 0;
        while i < n && pool_id.get_char(i) != '_'
            invariant
                n == pool_id@.len(),
                0 <= i <= n,
                forall|j: int| 0 <= j < i ==> pool_id@[j] != '_',
            decreases n - i,
        {
            i = i + 1;
        }
        proof {
            lemma_first_in_found(pool_id@, '_', i as int);
        }
        let prefix = pool_id.substring_char(0, i);
        prefix.to_owned()
    }

    /// Sorts the users ascending by creation date and applies the filter
    /// chain: the result is ordered, and holds exactly the records of the
    /// input that every configured filter keeps.
    pub fn order_users(users: Vec<UserType>, options: &UserReaderOptions) -> (r: Vec<UserType>)
        requires
            options.created_at is Some ==> forall|u: UserType|
                users@.contains(u) ==> u.user_create_date is Some,
            options.filtered_user_emails is Some ==> forall|u: UserType|
                users@.contains(u) ==> attr_has_value(u, "email"@),
        ensures
            sorted_by_creation(r@),
            forall|u: UserType| #[trigger]
                r@.to_multiset().count(u) == if keeps(*options, u) {
                    users@.to_multiset().count(u)
                } else {
                    0
                },
    {
        let ghost input = users@;
        let sorted = sort_by_creation(users);
        let ghost sseq = sorted@;
        let ghost pred = |u: UserType| keeps(*options, u);
        let mut rest = sorted;
        let mut out: Vec<UserType> = Vec::new();
        proof {
            assert(sseq.subrange(0, 0) =~= Seq::<UserType>::empty());
            assert(sseq.subrange(0, sseq.len() as int) =~= sseq);
            assert(Seq::<UserType>::empty().filter(pred) =~= Seq::<UserType>::empty()) by {
                reveal(Seq::filter);
            }
        }
        while rest.len() > 0
            invariant
                rest@.len() <= sseq.len(),
                rest@ =~= sseq.subrange(sseq.len() - rest@.len(), sseq.len() as int),
                out@ =~= sseq.subrange(0, sseq.len() - rest@.len()).filter(pred),
                sorted_by_creation(sseq),
                sorted_by_creation(out@),
                forall|x: int, y: int|
                    0 <= x < out@.len() && sseq.len() - rest@.len() <= y < sseq.len()
                        ==> creation_key(#[trigger] out@[x]) <= creation_key(#[trigger] sseq[y]),
                sseq.to_multiset() == input.to_multiset(),
                pred == (|u: UserType| keeps(*options, u)),
                options.created_at is Some ==> forall|u: UserType|
                    input.contains(u) ==> u.user_create_date is Some,
                options.filtered_user_emails is Some ==> forall|u: UserType|
                    input.contains(u) ==> attr_has_value(u, "email"@),
            decreases rest.len(),
        {
            let ghost k = sseq.len() - rest@.len();
            let ghost pre = rest@;
            let u = rest.remove(0);
            proof {
                assert(pre =~= sseq.subrange(k, sseq.len() as int));
                assert(u == pre[0]);
                assert(sseq.subrange(k, sseq.len() as int)[0] == sseq[k]);
                assert(u == sseq[k]);
                pre.remove_ensures(0);
                assert(rest@ == pre.remove(0));
                assert forall|j: int| 0 <= j < rest@.len() implies rest@[j] == sseq[k + 1 + j] by {
                    assert(pre.remove(0)[j] == pre[j + 1]);
                    assert(sseq.subrange(k, sseq.len() as int)[j + 1] == sseq[k + 1 + j]);
                }
                assert(rest@ =~= sseq.subrange(k + 1, sseq.len() as int));
                assert(sseq.contains(u));
                vstd::seq_lib::to_multiset_contains(sseq, u);
                vstd::seq_lib::to_multiset_contains(input, u);
                assert(input.contains(u));
                assert(sseq.subrange(0, k + 1).drop_last() =~= sseq.subrange(0, k));
                assert(sseq.subrange(0, k + 1) =~= sseq.subrange(0, k).push(u));
                sseq.subrange(0, k).lemma_filter_push(u, pred);
            }
            if keeps_user(&u, options) {
                out.push(u);
            }
        }
        proof {
            assert(out@ =~= sseq.filter(pred));
            assert forall|u: UserType| #[trigger]
                out@.to_multiset().count(u) == if keeps(*options, u) {
                    input.to_multiset().count(u)
                } else {
                    0
                } by {
                lemma_filter_multiset_count(sseq, pred, u);
            }
        }
        out
    }
}

/// The identifier filter on one record, `id_keeps` made executable. A
/// record without an identifier counts as the empty identifier.
pub fn filter_by_user_id(u: &UserType, options: &UserReaderOptions) -> (r: bool)
    ensures
        r == id_keeps(*options, *u),
{
    match &options.filtered_user_ids {
        None => true,
        Some(l) => {
            let username: String = match &u.username {
                Some(s) => s.clone(),
                None => String::new(),
            };
            let is_in = contains_string(l, &username);
            if options.include_user_ids {
                is_in
            } else {
                !is_in
            }
        },
    }
}

/// The email filter on one record, `email_keeps` made executable.
pub fn filter_by_user_emails(u: &UserType, options: &UserReaderOptions) -> (r: bool)
    requires
        options.filtered_user_emails is Some ==> attr_has_value(*u, "email"@),
    ensures
        r == email_keeps(*options, *u),
{
    match &options.filtered_user_emails {
        None => true,
        Some(l) => {
            let is_in = email_is_in(u, l);
            if options.include_user_emails {
                is_in
            } else {
                !is_in
            }
        },
    }
}

/// The creation-date cutoff on one record, `cutoff_keeps` made
/// executable.
pub fn filter_by_created_at(u: &UserType, options: &UserReaderOptions) -> (r: bool)
    requires
        options.created_at is Some ==> u.user_create_date is Some,
    ensures
        r == cutoff_keeps(*options, *u),
{
    match options.created_at {
        None => true,
        Some(cut) => {
            let t = u.creation_date();
            let diff: i128 = t as i128 - cut as i128;
            proof {
                lemma_whole_days_nonneg(diff as int);
            }
            diff >= -86399
        },
    }
}

/// The whole filter chain on one record.
fn keeps_user(u: &UserType, options: &UserReaderOptions) -> (r: bool)
    requires
        options.created_at is Some ==> u.user_create_date is Some,
        options.filtered_user_emails is Some ==> attr_has_value(*u, "email"@),
    ensures
        r == keeps(*options, *u),
{
    let by_id = filter_by_user_id(u, options);
    let by_email = filter_by_user_emails(u, options);
    let by_date = filter_by_created_at(u, options);
    by_id && by_email && by_date
}

/// Whether `s` occurs in `l`.
fn contains_string(l: &Vec<String>, s: &String) -> (r: bool)
    ensures
        r == seq_contains_string(l@, s@),
{
    let n: usize = l.len();
    let mut i: usize = 0;
    while i < n
        invariant
            n == l.len(),
            0 <= i <= n,
            forall|j: int| 0 <= j < i ==> l@[j]@ != s@,
        decreases n - i,
    {
        if l[i].eq(s) {
            return true;
        }
        i = i + 1;
    }
    false
}

/// The email attribute's value, or `None` when the record carries no
/// email attribute.
fn email_value(u: &UserType) -> (r: Option<String>)
    requires
        attr_has_value(*u, "email"@),
    ensures
        match r {
            Some(v) => has_email(*u) && v@ == spec_email(*u),
            None => !has_email(*u),
        },
{
    match &u.attributes {
        None => None,
        Some(attrs) => {
            let wanted: String = String::from_str("email");
            let n: usize = attrs.len();
            let mut i: usize = 0;
            proof {
                assert(attrs@.skip(0) =~= attrs@);
            }
            while i < n
                invariant
                    n == attrs.len(),
                    0 <= i <= n,
                    u.attributes == Some(*attrs),
                    attr_has_value(*u, "email"@),
                    crate::models::find_attr(attrs@, "email"@) == crate::models::find_attr(
                        attrs@.skip(i as int),
                        "email"@,
                    ),
                    wanted@ == "email"@,
                decreases n - i,
            {
                let a = &attrs[i];
                proof {
                    assert(attrs@.skip(i as int)[0] == attrs@[i as int]);
                    assert(attrs@.skip(i as int).drop_first() =~= attrs@.skip(i + 1));
                }
                if a.name.eq(&wanted) {
                    proof {
                        assert(crate::models::find_attr(attrs@.skip(i as int), "email"@)
                            == Some(attrs@[i as int]));
                    }
                    match &a.value {
                        Some(v) => {
                            return Some(v.clone());
                        },
                        None => {
                            proof {
                                assert(false);
                            }
                            return None;
                        },
                    }
                }
                i = i + 1;
            }
            proof {
                assert(attrs@.skip(n as int) =~= Seq::<AttributeType>::empty());
            }
            None
        },
    }
}

/// Whether the record's email equals some entry of `l`, ignoring case.
fn email_is_in(u: &UserType, l: &Vec<String>) -> (r: bool)
    requires
        attr_has_value(*u, "email"@),
    ensures
        r == email_matches(l@, *u),
{
    match email_value(u) {
        None => false,
        Some(em) => {
            let em_low = lowercase(em.as_str());
            let n: usize = l.len();
            let mut i: usize = 0;
            while i < n
                invariant
                    n == l.len(),
                    0 <= i <= n,
                    has_email(*u),
                    em_low@ == lower_of(spec_email(*u)),
                    forall|j: int| 0 <= j < i ==> lower_of(#[trigger] l@[j]@) != lower_of(
                        spec_email(*u),
                    ),
                decreases n - i,
            {
                let cand = lowercase(l[i].as_str());
                if cand.eq(&em_low) {
                    return true;
                }
                i = i + 1;
            }
            false
        },
    }
}

/// Ascending by creation key for every adjacent pair — and so for every
/// pair at all.
pub open spec fn sorted_by_creation(s: Seq<UserType>) -> bool {
    forall|i: int, j: int|
        0 <= i < j < s.len() ==> creation_key(#[trigger] s[i]) <= creation_key(#[trigger] s[j])
}

/// Whether `a` was created no later than `b`, undated records first.
fn creation_le(a: &UserType, b: &UserType) -> (r: bool)
    ensures
        r == (creation_key(*a) <= creation_key(*b)),
{
    match (a.user_create_date, b.user_create_date) {
        (None, _) => true,
        (Some(_), None) => false,
        (Some(x), Some(y)) => x <= y,
    }
}

/// Inserts `u` into a sorted vector, keeping it sorted: after the records
/// created no later than `u`.
fn insert_sorted(out: &mut Vec<UserType>, u: UserType)
    requires
        sorted_by_creation(old(out)@),
    ensures
        sorted_by_creation(final(out)@),
        final(out)@.to_multiset() == old(out)@.to_multiset().insert(u),
{
    let n: usize = out.len();
    let mut j: usize = 0;
    while j < n && creation_le(&out[j], &u)
        invariant
            n == out.len(),
            0 <= j <= n,
            out@ == old(out)@,
            forall|k: int| 0 <= k < j ==> creation_key(#[trigger] out@[k]) <= creation_key(u),
        decreases n - j,
    {
        j = j + 1;
    }
    proof {
        old(out)@.insert_ensures(j as int, u);
        to_multiset_insert(old(out)@, j as int, u);
    }
    out.insert(j, u);
}

/// Sorts the users ascending by creation date. Which record of a tie
/// comes first is not pinned down; the contents are.
pub fn sort_by_creation(users: Vec<UserType>) -> (r: Vec<UserType>)
    ensures
        sorted_by_creation(r@),
        r@.to_multiset() == users@.to_multiset(),
{
    let ghost orig = users@;
    let mut rest = users;
    let mut out: Vec<UserType> = Vec::new();
    proof {
        lemma_empty_to_multiset(out@);
        assert(out@.to_multiset().add(rest@.to_multiset()) =~= orig.to_multiset());
    }
    while rest.len() > 0
        invariant
            sorted_by_creation(out@),
            out@.to_multiset().add(rest@.to_multiset()) == orig.to_multiset(),
        decreases rest.len(),
    {
        let ghost pre = rest@;
        let u = rest.remove(0);
        proof {
            to_multiset_remove(pre, 0);
            vstd::seq_lib::to_multiset_contains(pre, u);
        }
        let ghost out_pre = out@;
        insert_sorted(&mut out, u);
        proof {
            assert(out@.to_multiset().add(rest@.to_multiset()) =~= out_pre.to_multiset().add(
                pre.to_multiset(),
            ));
        }
    }
    proof {
        lemma_empty_to_multiset(rest@);
        assert(out@.to_multiset() =~= orig.to_multiset());
    }
    out
}

/// The identifier column of a CSV row, `"No username"` when the record
/// carries none.
pub open spec fn username_text(u: UserType) -> Seq<char> {
    match u.username {
        Some(s) => s@,
        None => "No username"@,
    }
}

/// The status column of a CSV row, `"No user status"` when the record
/// carries none.
pub open spec fn status_text(u: UserType) -> Seq<char> {
    match u.user_status {
        Some(s) => s@,
        None => "No user status"@,
    }
}

/// A record the CSV rendering accepts: dated, within the range the
/// timestamp formatting takes.
pub open spec fn csv_ready(u: UserType) -> bool {
    u.user_create_date matches Some(t) && displayable_timestamp(t as int)
}

/// One CSV data row: creation date as UTC text, identifier, status, and
/// the attribute values, comma-separated.
pub open spec fn csv_row(u: UserType) -> Seq<char> {
    utc_display_of(creation_key(u)) + ","@ + username_text(u) + ","@ + status_text(u) + ","@
        + values_text(u, ","@)
}

/// The header row: the three fixed columns, then the attribute names of
/// the record the rows are rendered from.
pub open spec fn csv_header(u: UserType) -> Seq<char> {
    "createdAt,username,status,"@ + keys_text(u, ","@)
}

/// The data rows, each on a fresh line.
pub open spec fn csv_rows(users: Seq<UserType>) -> Seq<char>
    decreases users.len(),
{
    if users.len() == 0 {
        Seq::empty()
    } else {
        csv_rows(users.drop_last()) + "\n"@ + csv_row(users.last())
    }
}

/// The whole CSV text: empty for no users, otherwise the header drawn
/// from the first record followed by one row per record.
pub open spec fn csv_content(users: Seq<UserType>) -> Seq<char> {
    if users.len() == 0 {
        Seq::empty()
    } else {
        csv_header(users[0]) + csv_rows(users)
    }
}

/// One CSV data row for a record.
fn csv_row_string(u: &UserType) -> (r: String)
    requires
        csv_ready(*u),
    ensures
        r@ == csv_row(*u),
{
    let mut s = crate::dates::format_timestamp(u.creation_date());
    s.append(",");
    match &u.username {
        Some(name) => s.append(name.as_str()),
        None => s.append("No username"),
    }
    s.append(",");
    match &u.user_status {
        Some(st) => s.append(st.as_str()),
        None => s.append("No user status"),
    }
    s.append(",");
    let vals = u.attributes_values_to_string(",");
    s.append(vals.as_str());
    proof {
        assert(s@ =~= csv_row(*u));
    }
    s
}

/// Renders the users as CSV text — a header drawn from the first record,
/// then one row per record — and the count of rendered records.
pub fn users_to_csv(users: &Vec<UserType>) -> (r: (String, i32))
    requires
        forall|i: int| 0 <= i < users@.len() ==> csv_ready(#[trigger] users@[i]),
        users@.len() <= i32::MAX,
    ensures
        r.0@ == csv_content(users@),
        r.1 == users@.len() as int,
{
    let n: usize = users.len();
    if n == 0 {
        return (String::new(), 0);
    }
    let mut content = String::from_str("createdAt,username,status,");
    let keys = users[0].attributes_keys_to_string(",");
    content.append(keys.as_str());
    proof {
        assert(content@ =~= csv_header(users@[0]));
        assert(users@.subrange(0, 0) =~= Seq::<UserType>::empty());
    }
    let mut i: usize = 0;
    while i < n
        invariant
            n == users@.len(),
            0 <= i <= n,
            forall|j: int| 0 <= j < users@.len() ==> csv_ready(#[trigger] users@[j]),
            content@ == csv_header(users@[0]) + csv_rows(users@.subrange(0, i as int)),
        decreases n - i,
    {
        content.append("\n");
        let row = csv_row_string(&users[i]);
        content.append(row.as_str());
        proof {
            assert(users@.subrange(0, i + 1).drop_last() =~= users@.subrange(0, i as int));
            assert(users@.subrange(0, i + 1).last() == users@[i as int]);
            assert(content@ =~= csv_header(users@[0]) + csv_rows(users@.subrange(0, i + 1)));
        }
        i = i + 1;
    }
    proof {
        assert(users@.subrange(0, n as int) =~= users@);
    }
    let count: i32 = n as i32;
    (content, count)
}

/// Each kept record appears in a filtered sequence exactly as often as in
/// the original; a dropped one not at all.
proof fn lemma_filter_multiset_count<A>(s: Seq<A>, p: spec_fn(A) -> bool, x: A)
    ensures
        s.filter(p).to_multiset().count(x) == if p(x) {
            s.to_multiset().count(x)
        } else {
            0
        },
    decreases s.len(),
{
    reveal(Seq::filter);
    if s.len() == 0 {
        lemma_empty_to_multiset(s);
        lemma_empty_to_multiset(s.filter(p));
    } else {
        let t = s.drop_last();
        lemma_filter_multiset_count(t, p, x);
        assert(s =~= t.push(s.last()));
        vstd::seq_lib::to_multiset_build(t, s.last());
        if p(s.last()) {
            vstd::seq_lib::to_multiset_build(t.filter(p), s.last());
        }
    }
}

} // verus!
