//! The record set: the ordered sequence of records that the vault stores,
//! and the lookups and edits made on it.
use crate::record::{Password, PasswordView};
use vstd::prelude::*;
use vstd::string::StrSliceExecFns;

verus! {

/// The views of a sequence of records.
pub open spec fn records_view(v: Seq<Password>) -> Seq<PasswordView> {
    v.map_values(|p: Password| p@)
}

/// The view of an optional record.
pub open spec fn opt_view(o: Option<Password>) -> Option<PasswordView> {
    match o {
        Some(p) => Some(p@),
        None => None,
    }
}

/// The index of the first record with `id`, or -1 where there is none.
pub open spec fn position_of(s: Seq<PasswordView>, id: Seq<char>) -> int
    decreases s.len(),
{
    if s.len() == 0 {
        -1
    } else if s[0].id == id {
        0
    } else {
        let k = position_of(s.drop_first(), id);
        if k < 0 {
            -1
        } else {
            k + 1
        }
    }
}

/// The first record with `id`, if any.
pub open spec fn found(s: Seq<PasswordView>, id: Seq<char>) -> Option<PasswordView> {
    let k = position_of(s, id);
    if k >= 0 {
        Some(s[k])
    } else {
        None
    }
}

/// Some record of `s` has `id`.
pub open spec fn has_id(s: Seq<PasswordView>, id: Seq<char>) -> bool {
    exists|i: int| 0 <= i < s.len() && #[trigger] s[i].id == id
}

/// The records of `s` whose id is not `id`, in their order.
pub open spec fn without_id(s: Seq<PasswordView>, id: Seq<char>) -> Seq<PasswordView> {
    s.filter(|p: PasswordView| p.id != id)
}

/// `needle` occurs in `hay` as a contiguous run.
pub open spec fn is_substring(needle: Seq<char>, hay: Seq<char>) -> bool {
    exists|i: int|
        0 <= i && i + needle.len() <= hay.len() && #[trigger] hay.subrange(i, i + needle.len())
            == needle
}

/// The lowercase form of a text, as `str::to_lowercase` gives it.
pub uninterp spec fn lower_of(s: Seq<char>) -> Seq<char>;

/// The record's title, username or URL holds the (lowercased) query, with
/// case ignored.
pub open spec fn matches_query(p: PasswordView, folded_query: Seq<char>) -> bool {
    ||| is_substring(folded_query, lower_of(p.title))
    ||| is_substring(folded_query, lower_of(p.username))
    ||| (p.url matches Some(u) && is_substring(folded_query, lower_of(u)))
}

/// The records that a search for `query` returns, in stored order.
pub open spec fn search_result(s: Seq<PasswordView>, query: Seq<char>) -> Seq<PasswordView> {
    s.filter(|p: PasswordView| matches_query(p, lower_of(query)))
}

/// Relies on `str::to_lowercase`: the result depends on the text alone.
#[verifier::external_body]
fn to_lower(s: &str) -> (r: String)
    ensures
        r@ == lower_of(s@),
{
    s.to_lowercase()
}

/// `position_of` names the first record with the id.
pub proof fn lemma_position(s: Seq<PasswordView>, id: Seq<char>)
    ensures
        -1 <= position_of(s, id) < s.len(),
        position_of(s, id) >= 0 ==> s[position_of(s, id)].id == id,
        forall|j: int| 0 <= j < position_of(s, id) ==> s[j].id != id,
        position_of(s, id) < 0 ==> forall|j: int| 0 <= j < s.len() ==> s[j].id != id,
    decreases s.len(),
{
    if s.len() > 0 && s[0].id != id {
        lemma_position(s.drop_first(), id);
        assert forall|j: int| 0 < j < s.len() implies s[j] == s.drop_first()[j - 1] by {}
    }
}

/// The first index at which `id` stands, found by a scan.
proof fn lemma_position_is(s: Seq<PasswordView>, id: Seq<char>, i: int)
    requires
        0 <= i < s.len(),
        s[i].id == id,
        forall|j: int| 0 <= j < i ==> s[j].id != id,
    ensures
        position_of(s, id) == i,
{
    lemma_position(s, id);
}

/// Appending a record whose id is new makes it the record found by its id.
pub proof fn lemma_add_then_get(s: Seq<PasswordView>, p: PasswordView)
    requires
        !has_id(s, p.id),
    ensures
        found(s.push(p), p.id) == Some(p),
{
    lemma_position_is(s.push(p), p.id, s.len() as int);
}

/// After the records with `id` are removed, none is found by it.
pub proof fn lemma_delete_then_get(s: Seq<PasswordView>, id: Seq<char>)
    ensures
        found(without_id(s, id), id) is None,
{
    let t = without_id(s, id);
    lemma_position(t, id);
    if position_of(t, id) >= 0 {
        s.lemma_filter_pred(|p: PasswordView| p.id != id, position_of(t, id));
    }
}

/// Removing an id that no record has leaves the set as it was.
pub proof fn lemma_delete_absent(s: Seq<PasswordView>, id: Seq<char>)
    requires
        !has_id(s, id),
    ensures
        without_id(s, id) == s,
    decreases s.len(),
{
    reveal(Seq::filter);
    if s.len() > 0 {
        assert(!has_id(s.drop_last(), id)) by {
            if has_id(s.drop_last(), id) {
                let i = choose|i: int| 0 <= i < s.drop_last().len() && #[trigger] s.drop_last()[i].id == id;
                assert(s[i].id == id);
            }
        }
        lemma_delete_absent(s.drop_last(), id);
        assert(s.last().id != id);
        assert(s.drop_last().push(s.last()) == s);
    }
}

/// A search ignores case: two queries with the same lowercase form find
/// the same records.
pub proof fn lemma_search_ignores_case(s: Seq<PasswordView>, q1: Seq<char>, q2: Seq<char>)
    requires
        lower_of(q1) == lower_of(q2),
    ensures
        search_result(s, q1) == search_result(s, q2),
{
}

/// The characters of a text, one by one.
fn chars_of(s: &str) -> (r: Vec<char>)
    ensures
        r@ == s@,
{
    let n = s.unicode_len();
    let mut out: Vec<char> = Vec::new();
    let mut i: usize = 0;
    while i < n
        invariant
            n == s@.len(),
            i <= n,
            out@ == s@.take(i as int),
        decreases n - i,
    {
        out.push(s.get_char(i));
        i += 1;
        assert(out@ == s@.take(i as int));
    }
    assert(s@.take(n as int) == s@);
    out
}

/// Whether `query` occurs in `text`; both are taken as given, so callers
/// pass the lowercase forms to ignore case.
pub fn contains_folded(text: &str, query: &str) -> (r: bool)
    ensures
        r == is_substring(query@, text@),
{
    let t = chars_of(text);
    let q = chars_of(query);
    if q.len() > t.len() {
        return false;
    }
    let mut i: usize = 0;
    while i <= t.len() - q.len()
        invariant
            t@ == text@,
            q@ == query@,
            q.len() <= t.len(),
            i <= t.len() - q.len() + 1,
            forall|k: int| 0 <= k < i ==> #[trigger] t@.subrange(k, k + q@.len()) != q@,
        decreases t.len() - q.len() + 1 - i,
    {
        let mut j: usize = 0;
        while j < q.len() && t[i + j] == q[j]
            invariant
                i + q.len() <= t.len(),
                j <= q.len(),
                forall|m: int| 0 <= m < j ==> t@[i + m] == q@[m],
            decreases q.len() - j,
        {
            j += 1;
        }
        if j == q.len() {
            assert(t@.subrange(i as int, i + q@.len()) == q@);
            return true;
        }
        assert(t@.subrange(i as int, i + q@.len())[j as int] != q@[j as int]);
        i += 1;
    }
    false
}

/// The index of the first record with `id`.
pub fn index_of(records: &Vec<Password>, id: &str) -> (r: Option<usize>)
    ensures
        r matches Some(i) ==> i == position_of(records_view(records@), id@),
        r is None <==> position_of(records_view(records@), id@) < 0,
{
    let ghost s = records_view(records@);
    let key = id.to_owned();
    let mut i: usize = 0;
    while i < records.len()
        invariant
            s == records_view(records@),
            key@ == id@,
            i <= records.len(),
            forall|j: int| 0 <= j < i ==> s[j].id != id@,
        decreases records.len() - i,
    {
        if records[i].id == key {
            proof {
                lemma_position_is(s, id@, i as int);
            }
            return Some(i);
        }
        i += 1;
    }
    proof {
        lemma_position(s, id@);
    }
    None
}

/// A copy of the first record with `id`.
pub fn find_by_id(records: &Vec<Password>, id: &str) -> (r: Option<Password>)
    ensures
        opt_view(r) == found(records_view(records@), id@),
{
    proof {
        lemma_position(records_view(records@), id@);
    }
    match index_of(records, id) {
        Some(i) => Some(records[i].duplicate()),
        None => None,
    }
}

/// The records whose id is not `id`, in their order.
pub fn remove_id(records: &Vec<Password>, id: &str) -> (r: Vec<Password>)
    ensures
        records_view(r@) == without_id(records_view(records@), id@),
{
    let ghost s = records_view(records@);
    let ghost keep = |p: PasswordView| p.id != id@;
    let key = id.to_owned();
    let mut out: Vec<Password> = Vec::new();
    let mut i: usize = 0;
    while i < records.len()
        invariant
            s == records_view(records@),
            key@ == id@,
            keep == (|p: PasswordView| p.id != id@),
            i <= records.len(),
            records_view(out@) == s.take(i as int).filter(keep),
        decreases records.len() - i,
    {
        proof {
            reveal(Seq::filter);
        }
        assert(s.take(i + 1).drop_last() == s.take(i as int));
        assert(s.take(i + 1).last() == records@[i as int]@);
        let ghost before = out@;
        if !(records[i].id == key) {
            out.push(records[i].duplicate());
            assert(records_view(out@) == records_view(before).push(records@[i as int]@));
        }
        i += 1;
        assert(records_view(out@) == s.take(i as int).filter(keep));
    }
    assert(s.take(records.len() as int) == s);
    out
}

/// Whether a record matches a search for the lowercase query.
fn record_matches(p: &Password, folded_query: &str) -> (r: bool)
    ensures
        r == matches_query(p@, folded_query@),
{
    if contains_folded(to_lower(p.title.as_str()).as_str(), folded_query) {
        return true;
    }
    if contains_folded(to_lower(p.username.as_str()).as_str(), folded_query) {
        return true;
    }
    match &p.url {
        Some(u) => contains_folded(to_lower(u.as_str()).as_str(), folded_query),
        None => false,
    }
}

/// The records whose title, username or URL holds `query`, case ignored,
/// in their order.
pub fn search(records: &Vec<Password>, query: &str) -> (r: Vec<Password>)
    ensures
        records_view(r@) == search_result(records_view(records@), query@),
{
    let ghost s = records_view(records@);
    let folded = to_lower(query);
    let ghost pick = |p: PasswordView| matches_query(p, lower_of(query@));
    let mut out: Vec<Password> = Vec::new();
    let mut i: usize = 0;
    while i < records.len()
        invariant
            s == records_view(records@),
            folded@ == lower_of(query@),
            pick == (|p: PasswordView| matches_query(p, lower_of(query@))),
            i <= records.len(),
            records_view(out@) == s.take(i as int).filter(pick),
        decreases records.len() - i,
    {
        proof {
            reveal(Seq::filter);
        }
        assert(s.take(i + 1).drop_last() == s.take(i as int));
        assert(s.take(i + 1).last() == records@[i as int]@);
        let ghost before = out@;
        if record_matches(&records[i], folded.as_str()) {
            out.push(records[i].duplicate());
            assert(records_view(out@) == records_view(before).push(records@[i as int]@));
        }
        i += 1;
        assert(records_view(out@) == s.take(i as int).filter(pick));
    }
    assert(s.take(records.len() as int) == s);
    out
}

} // verus!
