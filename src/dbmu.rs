//! An append-only text log: records are lines in one character buffer,
//! queried by regular expression, deleted by literal text, and saved and
//! loaded as the raw buffer.
use vstd::prelude::*;
use crate::text::{
    is_substring, lemma_lex_irreflexive, lemma_lex_total, lemma_lex_transitive, lex_less, lex_less_exec,
    push_char, remove_all, str_contains, str_remove_all,
};

verus! {

#[verifier::external_type_specification]
#[verifier::external_body]
pub struct ExRegexError(regex::Error);

/// The texts of the successive non-overlapping matches of regular expression
/// `pattern` in `text`, leftmost first.
pub uninterp spec fn regex_matches(pattern: Seq<char>, text: Seq<char>) -> Seq<Seq<char>>;

/// Whether `pattern` compiles as a regular expression under the default
/// limits.
pub uninterp spec fn regex_compiles(pattern: Seq<char>) -> bool;

/// The views of a list of strings.
pub open spec fn views(v: Seq<String>) -> Seq<Seq<char>> {
    v.map_values(|s: String| s@)
}

/// Relies on `regex::Regex::new`, to compile `pattern` (which succeeds or
/// fails on the pattern alone), and on `Regex::find_iter`, which yields the
/// successive non-overlapping matches.
#[verifier::external_body]
fn find_matches(pattern: &str, text: &str) -> (r: Result<Vec<String>, regex::Error>)
    ensures
        r is Ok <==> regex_compiles(pattern@),
        r matches Ok(v) ==> views(v@) == regex_matches(pattern@, text@),
{
    let re = regex::Regex::new(pattern)?;
    Ok(re.find_iter(text).map(|m| m.as_str().to_string()).collect())
}

/// Why a query failed.
#[derive(Clone, Copy, Debug, PartialEq, Eq, Structural)]
pub enum QueryError {
    /// The pattern is not a regular expression that compiles.
    InvalidPattern,
}

/// Each element sorts strictly before the next: sorted, without duplicates.
pub open spec fn strictly_sorted(s: Seq<Seq<char>>) -> bool {
    forall|i: int, j: int| 0 <= i < j < s.len() ==> lex_less(#[trigger] s[i], #[trigger] s[j])
}

/// A record line: the text and its newline.
pub open spec fn line(data: Seq<char>) -> Seq<char> {
    data.push('\n')
}

/// The buffer after appending a record.
pub open spec fn inserted(buf: Seq<char>, data: Seq<char>) -> Seq<char> {
    buf + line(data)
}

/// The buffer after appending a record unless that record line is present.
pub open spec fn inserted_unique(buf: Seq<char>, data: Seq<char>) -> Seq<char> {
    if is_substring(line(data), buf) { buf } else { inserted(buf, data) }
}

/// The buffer after loading saved text: the text is appended.
pub open spec fn loaded(buf: Seq<char>, saved: Seq<char>) -> Seq<char> {
    buf + saved
}

/// The log: one buffer of newline-terminated records.
#[derive(Debug)]
pub struct Database {
    pub data: String,
}

impl View for Database {
    type V = Seq<char>;

    open spec fn view(&self) -> Seq<char> {
        self.data@
    }
}

/// Sorts a list of texts and removes duplicates.
pub fn sort_dedup(found: &Vec<String>) -> (r: Vec<String>)
    ensures
        strictly_sorted(views(r@)),
        forall|t: Seq<char>| views(r@).contains(t) <==> views(found@).contains(t),
{
    let mut r: Vec<String> = Vec::new();
    let mut i: usize = 0;
    while i < found.len()
        invariant
            0 <= i <= found@.len(),
            strictly_sorted(views(r@)),
            forall|t: Seq<char>| views(r@).contains(t) <==> views(found@).take(i as int).contains(t),
        decreases found@.len() - i,
    {
        let item = &found[i];
        let ghost t = item@;
        let ghost old_r = views(r@);
        let mut k: usize = 0;
        loop
            invariant
                0 <= k <= r@.len(),
                old_r == views(r@),
                t == item@,
                forall|j: int| 0 <= j < k ==> lex_less(#[trigger] old_r[j], t),
            ensures
                0 <= k <= r@.len(),
                forall|j: int| 0 <= j < k ==> lex_less(#[trigger] old_r[j], t),
                k < r@.len() ==> !lex_less(old_r[k as int], t),
            decreases r@.len() - k,
        {
            if k >= r.len() {
                break;
            }
            assert(old_r[k as int] == r@[k as int]@);
            if !lex_less_exec(r[k].as_str(), item.as_str()) {
                break;
            }
            k = k + 1;
        }
        let ghost next = views(found@).take(i as int + 1);
        let ghost prev = views(found@).take(i as int);
        assert(next =~= prev.push(t));
        assert(forall|u: Seq<char>| old_r.contains(u) <==> prev.contains(u));
        if k < r.len() && r[k].eq(item) {
            assert(old_r[k as int] == t);
            assert forall|u: Seq<char>| views(r@).contains(u) <==> next.contains(u) by {
                if u == t {
                    assert(views(r@)[k as int] == t);
                }
                if next.contains(u) && u != t {
                    let j = choose|j: int| 0 <= j < next.len() && #[trigger] next[j] == u;
                    assert(prev[j] == u);
                }
            }
        } else {
            proof {
                if k < r@.len() {
                    if !lex_less(t, old_r[k as int]) {
                        lemma_lex_total(t, old_r[k as int]);
                    }
                }
            }
            r.insert(k, item.clone());
            let ghost new_r = views(r@);
            assert(new_r =~= old_r.insert(k as int, t));
            assert forall|a: int, b: int| 0 <= a < b < new_r.len() implies lex_less(#[trigger] new_r[a], #[trigger] new_r[b]) by {
                if b < k {
                } else if b == k {
                } else if a < k {
                    if b == k + 1 {
                        lemma_lex_transitive(new_r[a], t, new_r[b]);
                    } else {
                        lemma_lex_transitive(new_r[a], t, old_r[k as int]);
                        lemma_lex_transitive(new_r[a], old_r[k as int], new_r[b]);
                    }
                } else if a == k {
                    if b > k + 1 {
                        lemma_lex_transitive(t, old_r[k as int], new_r[b]);
                    }
                }
            }
            assert forall|u: Seq<char>| new_r.contains(u) <==> next.contains(u) by {
                if new_r.contains(u) {
                    if u == t {
                        assert(next[i as int] == t);
                    } else {
                        let j = choose|j: int| 0 <= j < new_r.len() && #[trigger] new_r[j] == u;
                        let jj = if j < k { j } else { j - 1 };
                        assert(old_r[jj] == u);
                        assert(prev.contains(u));
                        let m = choose|m: int| 0 <= m < prev.len() && #[trigger] prev[m] == u;
                        assert(next[m] == u);
                    }
                }
                if next.contains(u) {
                    if u == t {
                        assert(new_r[k as int] == t);
                    } else {
                        let m = choose|m: int| 0 <= m < next.len() && #[trigger] next[m] == u;
                        assert(prev[m] == u);
                        assert(old_r.contains(u));
                        let j = choose|j: int| 0 <= j < old_r.len() && #[trigger] old_r[j] == u;
                        if j < k {
                            assert(new_r[j] == u);
                        } else {
                            assert(new_r[j + 1] == u);
                        }
                    }
                }
            }
        }
        i = i + 1;
    }
    assert(views(found@).take(i as int) =~= views(found@));
    r
}

impl Database {
    /// An empty log.
    pub fn new() -> (db: Database)
        ensures
            db@ == Seq::<char>::empty(),
    {
        Database { data: String::new() }
    }

    /// Appends `data` as a record: the text, then a newline.
    pub fn insert_data(&mut self, data: &String)
        ensures
            final(self)@ == inserted(old(self)@, data@),
    {
        self.data.append(data.as_str());
        push_char(&mut self.data, '\n');
        assert(self.data@ =~= inserted(old(self)@, data@));
    }

    /// Appends `data` as a record unless that exact record line (text and
    /// newline) already occurs in the buffer.
    pub fn insert_data_unique(&mut self, data: &String)
        ensures
            final(self)@ == inserted_unique(old(self)@, data@),
    {
        let mut needle = data.clone();
        push_char(&mut needle, '\n');
        let present = str_contains(self.data.as_str(), needle.as_str());
        if !present {
            self.insert_data(data);
        }
    }

    /// The matches of regular expression `query` in the buffer, sorted and
    /// without duplicates; an error exactly when `query` does not compile.
    pub fn read_data(&self, query: &String) -> (r: Result<Vec<String>, QueryError>)
        ensures
            r matches Ok(v) ==> strictly_sorted(views(v@))
                && forall|t: Seq<char>| views(v@).contains(t) <==> regex_matches(query@, self@).contains(t),
            r is Ok <==> regex_compiles(query@),
            r matches Err(e) ==> e == QueryError::InvalidPattern,
    {
        match find_matches(query.as_str(), self.data.as_str()) {
            Ok(found) => Ok(sort_dedup(&found)),
            Err(_) => Err(QueryError::InvalidPattern),
        }
    }

    /// Removes every occurrence of the literal text `data`, left to right.
    /// Deleting text without its newline can merge neighbouring records.
    pub fn delete_data(&mut self, data: &String)
        ensures
            final(self)@ == remove_all(old(self)@, data@),
    {
        self.data = str_remove_all(self.data.as_str(), data.as_str());
    }

    /// The text that saving writes: the whole buffer, verbatim.
    pub fn save_database(&self) -> (r: String)
        ensures
            r@ == self@,
    {
        self.data.clone()
    }

    /// Appends saved text to the buffer; what was there stays.
    pub fn load_database(&mut self, saved: &String)
        ensures
            final(self)@ == loaded(old(self)@, saved@),
    {
        self.data.append(saved.as_str());
    }

    /// Empties the buffer.
    pub fn clear(&mut self)
        ensures
            final(self)@ == Seq::<char>::empty(),
    {
        self.data = String::new();
    }
}

/// A sorted list without duplicates is fixed by the texts it holds: two
/// such lists holding the same texts are equal. So a query's result does not
/// depend on the order in which matching records were inserted.
pub proof fn lemma_sorted_unique_determined(a: Seq<Seq<char>>, b: Seq<Seq<char>>)
    requires
        strictly_sorted(a),
        strictly_sorted(b),
        forall|t: Seq<char>| a.contains(t) <==> b.contains(t),
    ensures
        a == b,
    decreases a.len() + b.len(),
{
    if a.len() == 0 || b.len() == 0 {
        if a.len() > 0 {
            assert(b.contains(a[0]));
        }
        if b.len() > 0 {
            assert(a.contains(b[0]));
        }
        assert(a =~= b);
    } else {
        // The first elements agree: each is the least of the common texts.
        assert(b.contains(a[0]));
        assert(a.contains(b[0]));
        let i = choose|i: int| 0 <= i < b.len() && b[i] == a[0];
        let j = choose|j: int| 0 <= j < a.len() && a[j] == b[0];
        if i > 0 {
            if j > 0 {
                lemma_lex_transitive(b[0], b[i], a[j]);
                lemma_lex_irreflexive(b[0]);
            } else {
                lemma_lex_irreflexive(b[0]);
            }
        }
        assert(a[0] == b[0]);
        let ta = a.subrange(1, a.len() as int);
        let tb = b.subrange(1, b.len() as int);
        assert forall|t: Seq<char>| ta.contains(t) <==> tb.contains(t) by {
            if ta.contains(t) {
                let k = choose|k: int| 0 <= k < ta.len() && ta[k] == t;
                assert(a[k + 1] == t);
                assert(lex_less(a[0], t));
                lemma_lex_irreflexive(t);
                assert(b.contains(t));
                let m = choose|m: int| 0 <= m < b.len() && b[m] == t;
                assert(m != 0);
                assert(tb[m - 1] == t);
            }
            if tb.contains(t) {
                let k = choose|k: int| 0 <= k < tb.len() && tb[k] == t;
                assert(b[k + 1] == t);
                assert(lex_less(b[0], t));
                lemma_lex_irreflexive(t);
                assert(a.contains(t));
                let m = choose|m: int| 0 <= m < a.len() && a[m] == t;
                assert(m != 0);
                assert(ta[m - 1] == t);
            }
        }
        assert forall|x: int, y: int| 0 <= x < y < ta.len() implies lex_less(#[trigger] ta[x], #[trigger] ta[y]) by {
            assert(ta[x] == a[x + 1] && ta[y] == a[y + 1]);
        }
        assert forall|x: int, y: int| 0 <= x < y < tb.len() implies lex_less(#[trigger] tb[x], #[trigger] tb[y]) by {
            assert(tb[x] == b[x + 1] && tb[y] == b[y + 1]);
        }
        lemma_sorted_unique_determined(ta, tb);
        assert(a =~= seq![a[0]] + ta);
        assert(b =~= seq![b[0]] + tb);
    }
}

/// A record line occurs in any buffer it was appended to.
pub proof fn lemma_line_present(buf: Seq<char>, data: Seq<char>)
    ensures
        is_substring(line(data), inserted(buf, data)),
{
    let s = inserted(buf, data);
    assert(s.subrange(buf.len() as int, (buf.len() + line(data).len()) as int) =~= line(data));
}

/// Inserting a record uniquely twice in a row leaves the buffer as after the
/// first time: the record line is there, and the second call adds nothing.
/// Into an empty log this leaves exactly one record line.
pub proof fn lemma_insert_unique_twice(buf: Seq<char>, data: Seq<char>)
    ensures
        is_substring(line(data), inserted_unique(buf, data)),
        inserted_unique(inserted_unique(buf, data), data) == inserted_unique(buf, data),
        inserted_unique(inserted_unique(Seq::empty(), data), data) == line(data),
{
    lemma_line_present(buf, data);
    lemma_line_present(Seq::empty(), data);
    let e = Seq::<char>::empty();
    if is_substring(line(data), e) {
        let i = choose|i: int| 0 <= i <= e.len() - line(data).len() && #[trigger] e.subrange(i, i + line(data).len()) == line(data);
        assert(false);
    }
    assert(inserted(e, data) =~= line(data));
}

/// Saving and loading into a cleared log gives back the buffer; loading into
/// a log that holds records appends to them.
pub proof fn lemma_save_load_round_trip(buf: Seq<char>, other: Seq<char>)
    ensures
        loaded(Seq::empty(), buf) == buf,
        loaded(other, buf) == other + buf,
{
    assert(loaded(Seq::empty(), buf) =~= buf);
}

/// Deleting a one-character text leaves no occurrence of it, also where it
/// stood inside longer words.
pub proof fn lemma_delete_char_removes_all(s: Seq<char>, c: char)
    ensures
        !remove_all(s, seq![c]).contains(c),
    decreases s.len(),
{
    let p = seq![c];
    if s.len() >= 1 {
        let rest = s.subrange(1, s.len() as int);
        lemma_delete_char_removes_all(rest, c);
        if s.subrange(0, 1) == p {
        } else {
            assert(s.subrange(0, 1) =~= seq![s[0]]);
            assert(s[0] != c);
            let r = seq![s[0]] + remove_all(rest, p);
            if r.contains(c) {
                let j = choose|j: int| 0 <= j < r.len() && r[j] == c;
                assert(remove_all(rest, p)[j - 1] == c);
            }
        }
    }
}

} // verus!
