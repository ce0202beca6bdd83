//! Token normalization: identifiers are compared after trimming surrounding
//! whitespace and raising ASCII letters to upper case.

use vstd::prelude::*;

verus! {

/// Characters stripped from the ends of an input token.
pub open spec fn is_ascii_space(c: char) -> bool {
    c == ' ' || c == '\t' || c == '\r' || c == '\n'
}

/// ASCII upper case of one character; every other character is unchanged.
pub open spec fn upper_char(c: char) -> char {
    if 97 <= c as u32 && c as u32 <= 122 {
        (((c as u32 - 32) as u8) as char)
    } else {
        c
    }
}

/// ASCII upper case of a whole sequence of characters.
pub open spec fn upper(s: Seq<char>) -> Seq<char> {
    s.map_values(|c: char| upper_char(c))
}

/// The sequence with its leading whitespace removed.
pub open spec fn trim_front(s: Seq<char>) -> Seq<char>
    decreases s.len(),
{
    if s.len() > 0 && is_ascii_space(s[0]) {
        trim_front(s.drop_first())
    } else {
        s
    }
}

/// The sequence with its trailing whitespace removed.
pub open spec fn trim_back(s: Seq<char>) -> Seq<char>
    decreases s.len(),
{
    if s.len() > 0 && is_ascii_space(s.last()) {
        trim_back(s.drop_last())
    } else {
        s
    }
}

/// The sequence with whitespace removed from both ends.
pub open spec fn trim(s: Seq<char>) -> Seq<char> {
    trim_back(trim_front(s))
}

/// Normal form of an input token: trimmed, then raised to upper case.
/// All identifier comparisons in the library go through this form.
pub open spec fn norm_token(s: Seq<char>) -> Seq<char> {
    upper(trim(s))
}

fn is_space_exec(c: char) -> (r: bool)
    ensures
        r == is_ascii_space(c),
{
    c == ' ' || c == '\t' || c == '\r' || c == '\n'
}

fn upper_char_exec(c: char) -> (r: char)
    ensures
        r == upper_char(c),
{
    let u = c as u32;
    if 97 <= u && u <= 122 {
        ((u - 32) as u8) as char
    } else {
        c
    }
}

/// Relies on `String::push`: appends the given character to the end of the
/// string.
#[verifier::external_body]
fn push_char(s: &mut String, c: char)
    ensures
        final(s)@ == old(s)@.push(c),
{
    s.push(c);
}

proof fn lemma_trim_front_exact(s: Seq<char>, i: int)
    requires
        0 <= i <= s.len(),
        forall|k: int| 0 <= k < i ==> is_ascii_space(s[k]),
        i < s.len() ==> !is_ascii_space(s[i]),
    ensures
        trim_front(s) =~= s.skip(i),
    decreases i,
{
    if i == 0 {
        assert(s.skip(0) =~= s);
    } else {
        assert(is_ascii_space(s[0]));
        lemma_trim_front_exact(s.drop_first(), i - 1);
        assert(s.drop_first().skip(i - 1) =~= s.skip(i));
    }
}

proof fn lemma_trim_back_exact(s: Seq<char>, j: int)
    requires
        0 <= j <= s.len(),
        forall|k: int| j <= k < s.len() ==> is_ascii_space(s[k]),
        j > 0 ==> !is_ascii_space(s[j - 1]),
    ensures
        trim_back(s) =~= s.take(j),
    decreases s.len(),
{
    if j == s.len() {
        if s.len() > 0 {
            assert(!is_ascii_space(s.last()));
        }
        assert(s.take(j) =~= s);
    } else {
        assert(is_ascii_space(s.last()));
        lemma_trim_back_exact(s.drop_last(), j);
        assert(s.drop_last().take(j) =~= s.take(j));
    }
}

/// The trimmed form of a sequence whose whitespace sits exactly outside the
/// range `[start, end)`.
proof fn lemma_trim_range(s: Seq<char>, start: int, end: int)
    requires
        0 <= start <= end <= s.len(),
        forall|k: int| 0 <= k < start ==> is_ascii_space(s[k]),
        forall|k: int| end <= k < s.len() ==> is_ascii_space(s[k]),
        start < end ==> !is_ascii_space(s[start]) && !is_ascii_space(s[end - 1]),
        start == end ==> start == s.len(),
    ensures
        trim(s) =~= s.subrange(start, end),
{
    lemma_trim_front_exact(s, start);
    let rest = s.skip(start);
    lemma_trim_back_exact(rest, end - start);
    assert(rest.take(end - start) =~= s.subrange(start, end));
}

/// Trims the token and raises its ASCII letters to upper case: the normal
/// form under which all identifiers are compared.
pub fn normalize_token(s: &str) -> (r: String)
    ensures
        r@ == norm_token(s@),
{
    let len = s.unicode_len();
    let mut start: usize = 0;
    while start < len && is_space_exec(s.get_char(start))
        invariant
            len == s@.len(),
            start <= len,
            forall|k: int| 0 <= k < start ==> is_ascii_space(s@[k]),
        decreases len - start,
    {
        start += 1;
    }
    let mut end: usize = len;
    while end > start && is_space_exec(s.get_char(end - 1))
        invariant
            len == s@.len(),
            start <= end <= len,
            forall|k: int| end <= k < len ==> is_ascii_space(s@[k]),
        decreases end,
    {
        end -= 1;
    }
    let core = s.substring_char(start, end);
    proof {
        lemma_trim_range(s@, start as int, end as int);
    }
    let clen = end - start;
    let mut out = String::new();
    let mut i: usize = 0;
    while i < clen
        invariant
            clen == core@.len(),
            i <= clen,
            out@ == upper(core@.take(i as int)),
        decreases clen - i,
    {
        let c = upper_char_exec(core.get_char(i));
        push_char(&mut out, c);
        proof {
            assert(out@ =~= upper(core@.take(i + 1)));
        }
        i += 1;
    }
    proof {
        assert(core@.take(clen as int) =~= core@);
    }
    out
}

pub proof fn lemma_upper_char_idem(c: char)
    ensures
        upper_char(upper_char(c)) == upper_char(c),
{
    if 97 <= c as u32 && c as u32 <= 122 {
        assert(upper_char(c) as u32 == c as u32 - 32);
    }
}

/// Raising to upper case maps whitespace to itself and letters to letters.
pub proof fn lemma_upper_char_space(c: char)
    ensures
        is_ascii_space(upper_char(c)) == is_ascii_space(c),
{
    if 97 <= c as u32 && c as u32 <= 122 {
        assert(upper_char(c) as u32 == c as u32 - 32);
        assert(' ' as u32 == 32 && '\t' as u32 == 9 && '\r' as u32 == 13 && '\n' as u32 == 10);
    }
}

pub proof fn lemma_upper_idem(s: Seq<char>)
    ensures
        upper(upper(s)) == upper(s),
{
    assert forall|k: int| 0 <= k < s.len() implies upper(upper(s))[k] == upper(s)[k] by {
        lemma_upper_char_idem(s[k]);
    }
    assert(upper(upper(s)) =~= upper(s));
}

proof fn lemma_trim_front_head(s: Seq<char>)
    ensures
        trim_front(s).len() > 0 ==> !is_ascii_space(trim_front(s)[0]),
    decreases s.len(),
{
    if s.len() > 0 && is_ascii_space(s[0]) {
        lemma_trim_front_head(s.drop_first());
    }
}

proof fn lemma_trim_back_props(s: Seq<char>)
    ensures
        trim_back(s).len() <= s.len(),
        trim_back(s) =~= s.take(trim_back(s).len() as int),
        trim_back(s).len() > 0 ==> !is_ascii_space(trim_back(s).last()),
    decreases s.len(),
{
    if s.len() > 0 && is_ascii_space(s.last()) {
        lemma_trim_back_props(s.drop_last());
        assert(s.drop_last().take(trim_back(s).len() as int) =~= s.take(
            trim_back(s).len() as int,
        ));
    } else {
        assert(s.take(s.len() as int) =~= s);
    }
}

/// A trimmed sequence carries no whitespace at either end.
proof fn lemma_trim_ends(s: Seq<char>)
    ensures
        trim(s).len() > 0 ==> !is_ascii_space(trim(s)[0]) && !is_ascii_space(trim(s).last()),
{
    lemma_trim_front_head(s);
    lemma_trim_back_props(trim_front(s));
}

/// Normalization is idempotent: a normalized token normalizes to itself.
pub proof fn lemma_norm_idempotent(s: Seq<char>)
    ensures
        norm_token(norm_token(s)) == norm_token(s),
{
    let r = trim(s);
    let u = upper(r);
    lemma_trim_ends(s);
    if u.len() > 0 {
        lemma_upper_char_space(r[0]);
        lemma_upper_char_space(r[u.len() - 1]);
        assert(u.last() == upper_char(r[u.len() - 1]));
        assert(!is_ascii_space(u[0]));
        assert(!is_ascii_space(u.last()));
    }
    assert(trim_front(u) == u);
    assert(trim_back(u) == u);
    lemma_upper_idem(r);
}

proof fn lemma_trim_front_upper(s: Seq<char>)
    ensures
        trim_front(upper(s)) == upper(trim_front(s)),
    decreases s.len(),
{
    if s.len() > 0 {
        lemma_upper_char_space(s[0]);
        if is_ascii_space(s[0]) {
            lemma_trim_front_upper(s.drop_first());
            assert(upper(s).drop_first() =~= upper(s.drop_first()));
        }
    }
}

proof fn lemma_trim_back_upper(s: Seq<char>)
    ensures
        trim_back(upper(s)) == upper(trim_back(s)),
    decreases s.len(),
{
    if s.len() > 0 {
        lemma_upper_char_space(s.last());
        assert(upper(s).last() == upper_char(s.last()));
        if is_ascii_space(s.last()) {
            lemma_trim_back_upper(s.drop_last());
            assert(upper(s).drop_last() =~= upper(s.drop_last()));
        }
    }
}

/// Case invariance of normalization: a token and its upper-cased form
/// normalize to the same key.
pub proof fn lemma_norm_of_upper(s: Seq<char>)
    ensures
        norm_token(upper(s)) == norm_token(s),
{
    lemma_trim_front_upper(s);
    lemma_trim_back_upper(trim_front(s));
    lemma_upper_idem(trim(s));
}

/// Index of the first comma in `s`, or `-1` when there is none.
pub open spec fn first_comma(s: Seq<char>) -> int
    decreases s.len(),
{
    if s.len() == 0 {
        -1
    } else if s[0] == ',' {
        0
    } else {
        let r = first_comma(s.drop_first());
        if r < 0 {
            -1
        } else {
            r + 1
        }
    }
}

/// The fields of one comma-separated line, in order. A line without commas is
/// one field; every comma separates two fields, so a line of `n` commas has
/// `n + 1` fields, some possibly empty.
pub open spec fn split_commas(s: Seq<char>) -> Seq<Seq<char>>
    decreases s.len(),
{
    let i = first_comma(s);
    if 0 <= i < s.len() {
        seq![s.take(i)] + split_commas(s.skip(i + 1))
    } else {
        seq![s]
    }
}

/// Whether `s` holds no comma, so that it survives as one field of a
/// comma-separated line.
pub open spec fn comma_free(s: Seq<char>) -> bool {
    forall|k: int| 0 <= k < s.len() ==> s[k] != ','
}

/// The first field of a comma-separated line.
pub open spec fn first_field(s: Seq<char>) -> Seq<char> {
    split_commas(s)[0]
}

pub proof fn lemma_first_comma_bounds(s: Seq<char>)
    ensures
        -1 <= first_comma(s) < s.len(),
        first_comma(s) >= 0 ==> s[first_comma(s)] == ',',
        forall|k: int| 0 <= k < first_comma(s) ==> s[k] != ',',
        first_comma(s) < 0 ==> comma_free(s),
    decreases s.len(),
{
    if s.len() > 0 && s[0] != ',' {
        let t = s.drop_first();
        lemma_first_comma_bounds(t);
        if first_comma(t) >= 0 {
            let i = first_comma(s);
            assert(s[i] == t[i - 1]);
            assert forall|k: int| 0 <= k < i implies s[k] != ',' by {
                if k > 0 {
                    assert(s[k] == t[k - 1]);
                }
            }
        } else {
            assert forall|k: int| 0 <= k < s.len() implies s[k] != ',' by {
                if k > 0 {
                    assert(s[k] == t[k - 1]);
                }
            }
        }
    }
}

/// The first comma of a line whose comma at position `j` has none before it.
pub proof fn lemma_first_comma_is(s: Seq<char>, j: int)
    requires
        0 <= j < s.len(),
        s[j] == ',',
        forall|k: int| 0 <= k < j ==> s[k] != ',',
    ensures
        first_comma(s) == j,
    decreases j,
{
    if j > 0 {
        lemma_first_comma_is(s.drop_first(), j - 1);
    }
}

pub proof fn lemma_first_comma_none(s: Seq<char>)
    requires
        comma_free(s),
    ensures
        first_comma(s) < 0,
        split_commas(s) =~= seq![s],
    decreases s.len(),
{
    if s.len() > 0 {
        assert(comma_free(s.drop_first()));
        lemma_first_comma_none(s.drop_first());
    }
}

/// Splitting a line at a comma with a comma-free prefix yields that prefix as
/// the first field, followed by the fields of the rest of the line.
pub proof fn lemma_split_at_comma(s: Seq<char>, j: int)
    requires
        0 <= j < s.len(),
        s[j] == ',',
        forall|k: int| 0 <= k < j ==> s[k] != ',',
    ensures
        split_commas(s) =~= seq![s.take(j)] + split_commas(s.skip(j + 1)),
{
    lemma_first_comma_is(s, j);
}

pub proof fn lemma_split_len(s: Seq<char>)
    ensures
        split_commas(s).len() >= 1,
    decreases s.len(),
{
    let i = first_comma(s);
    lemma_first_comma_bounds(s);
    if 0 <= i < s.len() {
        lemma_split_len(s.skip(i + 1));
    }
}

/// Compares two string slices character by character.
pub fn str_eq(a: &str, b: &str) -> (r: bool)
    ensures
        r == (a@ == b@),
{
    let alen = a.unicode_len();
    let blen = b.unicode_len();
    if alen != blen {
        assert(a@ =~= b@ ==> a@.len() == b@.len());
        return false;
    }
    let mut i: usize = 0;
    while i < alen
        invariant
            alen == a@.len(),
            alen == b@.len(),
            i <= alen,
            forall|k: int| 0 <= k < i ==> a@[k] == b@[k],
        decreases alen - i,
    {
        if a.get_char(i) != b.get_char(i) {
            assert(a@ != b@);
            return false;
        }
        i += 1;
    }
    proof {
        assert(a@ =~= b@);
    }
    true
}

/// The fields of one comma-separated line, as owned strings.
pub fn split_fields(s: &str) -> (fields: Vec<String>)
    ensures
        fields.deep_view() == split_commas(s@),
        fields.len() >= 1,
{
    let len = s.unicode_len();
    let mut fields: Vec<String> = Vec::new();
    let mut field_start: usize = 0;
    let mut i: usize = 0;
    proof {
        assert(fields.deep_view() =~= Seq::<Seq<char>>::empty());
        assert(s@.skip(0) =~= s@);
        assert(split_commas(s@) =~= fields.deep_view() + split_commas(s@.skip(0)));
    }
    while i < len
        invariant
            len == s@.len(),
            field_start <= i <= len,
            forall|k: int| field_start <= k < i ==> s@[k] != ',',
            split_commas(s@) =~= fields.deep_view() + split_commas(s@.skip(field_start as int)),
        decreases len - i,
    {
        if s.get_char(i) == ',' {
            let field = String::from_str(s.substring_char(field_start, i));
            proof {
                let rest = s@.skip(field_start as int);
                let j = i - field_start;
                assert(forall|k: int| 0 <= k < j ==> rest[k] != ',');
                lemma_split_at_comma(rest, j);
                assert(rest.take(j) =~= field@);
                assert(rest.skip(j + 1) =~= s@.skip(i + 1));
                assert(fields.deep_view().push(field@) =~= fields.deep_view() + seq![field@]);
            }
            fields.push(field);
            field_start = i + 1;
        }
        i += 1;
    }
    let field = String::from_str(s.substring_char(field_start, len));
    proof {
        let rest = s@.skip(field_start as int);
        assert(comma_free(rest));
        lemma_first_comma_none(rest);
        assert(rest =~= field@);
        assert(fields.deep_view().push(field@) =~= fields.deep_view() + seq![field@]);
    }
    fields.push(field);
    proof {
        assert(fields.deep_view() =~= split_commas(s@));
        lemma_split_len(s@);
    }
    fields
}

} // verus!
