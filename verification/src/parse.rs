//! The line parser of the corpus format: one `hash:occurrence_count` record
//! per line, the hash text lowercased, the count a non-negative decimal.
use vstd::prelude::*;
use vstd::string::StrSliceExecFns;
use vstd::string::StringSliceAdditionalSpecFns;
use vstd::utf8::encode_utf8;

verus! {

/// The Unicode `White_Space` code points, the set that trailing trimming removes.
pub open spec fn is_ws_char(c: char) -> bool {
    let u = c as u32;
    ||| u == 0x09
    ||| u == 0x0A
    ||| u == 0x0B
    ||| u == 0x0C
    ||| u == 0x0D
    ||| u == 0x20
    ||| u == 0x85
    ||| u == 0xA0
    ||| u == 0x1680
    ||| (0x2000 <= u && u <= 0x200A)
    ||| u == 0x2028
    ||| u == 0x2029
    ||| u == 0x202F
    ||| u == 0x205F
    ||| u == 0x3000
}

/// `s` with every trailing whitespace character removed.
pub open spec fn trim_end_spec(s: Seq<char>) -> Seq<char>
    decreases s.len(),
{
    if s.len() > 0 && is_ws_char(s.last()) {
        trim_end_spec(s.drop_last())
    } else {
        s
    }
}

fn is_whitespace_char(c: char) -> (r: bool)
    ensures
        r == is_ws_char(c),
{
    let u = c as u32;
    u == 0x09 || u == 0x0A || u == 0x0B || u == 0x0C || u == 0x0D || u == 0x20 || u == 0x85
        || u == 0xA0 || u == 0x1680 || (0x2000 <= u && u <= 0x200A) || u == 0x2028 || u == 0x2029
        || u == 0x202F || u == 0x205F || u == 0x3000
}

/// The given line without its trailing whitespace.
fn trim_end(line: &str) -> (r: &str)
    ensures
        r@ == trim_end_spec(line@),
{
    let n = line.unicode_len();
    proof {
        assert(line@.subrange(0, n as int) =~= line@);
    }
    let mut end = n;
    while end > 0 && is_whitespace_char(line.get_char(end - 1))
        invariant
            end <= n,
            n == line@.len(),
            trim_end_spec(line@.subrange(0, end as int)) == trim_end_spec(line@),
        decreases end,
    {
        proof {
            let pre = line@.subrange(0, end as int);
            assert(pre.drop_last() =~= line@.subrange(0, end - 1));
        }
        end = end - 1;
    }
    proof {
        let pre = line@.subrange(0, end as int);
        if end > 0 {
            assert(!is_ws_char(pre.last()));
        }
        assert(trim_end_spec(pre) == pre);
        if end == n {
            assert(line@.subrange(0, end as int) =~= line@);
        }
    }
    line.substring_char(0, end)
}

/// Whether `c` is a decimal digit.
pub open spec fn is_digit_char(c: char) -> bool {
    0x30 <= c as u32 && c as u32 <= 0x39
}

/// The value of the decimal digit `c`.
pub open spec fn digit_val(c: char) -> nat
    recommends
        is_digit_char(c),
{
    (c as u32 - 0x30) as nat
}

/// Whether every character of `s` is a decimal digit.
pub open spec fn all_digits(s: Seq<char>) -> bool {
    forall|i: int| 0 <= i < s.len() ==> is_digit_char(#[trigger] s[i])
}

/// The number that the digit string `s` denotes, most significant digit first.
pub open spec fn digits_to_nat(s: Seq<char>) -> nat
    recommends
        all_digits(s),
    decreases s.len(),
{
    if s.len() == 0 {
        0
    } else {
        digits_to_nat(s.drop_last()) * 10 + digit_val(s.last())
    }
}

/// The digits of a numeral, a single optional leading `+` sign discarded.
pub open spec fn numeral_body(s: Seq<char>) -> Seq<char> {
    if s.len() > 0 && s[0] == '+' {
        s.drop_first()
    } else {
        s
    }
}

/// Whether `s` is a decimal numeral that fits in a `u64`, in the shape the
/// standard unsigned parser accepts: an optional `+`, then one or more digits.
pub open spec fn is_u64_numeral(s: Seq<char>) -> bool {
    let b = numeral_body(s);
    b.len() > 0 && all_digits(b) && digits_to_nat(b) <= u64::MAX
}

/// The value of a numeral accepted by [`is_u64_numeral`].
pub open spec fn u64_numeral_value(s: Seq<char>) -> nat {
    digits_to_nat(numeral_body(s))
}

/// Every digit appended to a digit string can only grow the denoted number.
proof fn lemma_digits_prefix_le(b: Seq<char>, k: int)
    requires
        0 <= k <= b.len(),
    ensures
        digits_to_nat(b.subrange(0, k)) <= digits_to_nat(b),
    decreases b.len() - k,
{
    if k < b.len() {
        let next = b.subrange(0, k + 1);
        assert(next.drop_last() =~= b.subrange(0, k));
        lemma_digits_prefix_le(b, k + 1);
    } else {
        assert(b.subrange(0, k) =~= b);
    }
}

/// Parses `s` as the standard library parses a `u64`: an optional leading
/// `+`, then one or more decimal digits, rejecting overflow.
pub fn parse_u64(s: &str) -> (r: Option<u64>)
    ensures
        match r {
            Some(v) => is_u64_numeral(s@) && v == u64_numeral_value(s@),
            None => !is_u64_numeral(s@),
        },
{
    let n = s.unicode_len();
    let start: usize = if n > 0 && s.get_char(0) == '+' {
        1
    } else {
        0
    };
    let ghost body = numeral_body(s@);
    proof {
        assert(body =~= s@.subrange(start as int, n as int));
    }
    if start == n {
        return None;
    }
    let mut i = start;
    let mut acc: u64 = 0;
    while i < n
        invariant
            start <= i <= n,
            n == s@.len(),
            body == numeral_body(s@),
            body =~= s@.subrange(start as int, n as int),
            all_digits(body.subrange(0, i - start)),
            acc == digits_to_nat(body.subrange(0, i - start)),
        decreases n - i,
    {
        let c = s.get_char(i);
        let u = c as u32;
        if u < 0x30 || u > 0x39 {
            proof {
                assert(body[i - start] == c);
                assert(!all_digits(body));
            }
            return None;
        }
        let d = (u - 0x30) as u64;
        let ghost seen = body.subrange(0, i - start);
        let ghost seen_next = body.subrange(0, i - start + 1);
        proof {
            assert(seen_next.drop_last() =~= seen);
            assert(seen_next.last() == c);
        }
        if acc > (u64::MAX - d) / 10 {
            proof {
                assert(acc * 10 + d > u64::MAX) by (nonlinear_arith)
                    requires
                        acc > (u64::MAX - d) / 10,
                        d <= 9,
                        u64::MAX == 0xffff_ffff_ffff_ffff,
                ;
                if all_digits(body) {
                    lemma_digits_prefix_le(body, i - start + 1);
                    assert(digits_to_nat(body) > u64::MAX);
                }
            }
            return None;
        }
        acc = acc * 10 + d;
        i = i + 1;
    }
    proof {
        assert(body.subrange(0, n - start) =~= body);
    }
    Some(acc)
}

/// The position of the first `:` in `s`, if any.
pub open spec fn first_colon(s: Seq<char>) -> Option<int>
    decreases s.len(),
{
    if s.len() == 0 {
        None
    } else if s[0] == ':' {
        Some(0int)
    } else {
        match first_colon(s.drop_first()) {
            Some(i) => Some(i + 1),
            None => None,
        }
    }
}

proof fn lemma_first_colon_at(s: Seq<char>, i: int)
    requires
        0 <= i < s.len(),
        s[i] == ':',
        forall|j: int| 0 <= j < i ==> s[j] != ':',
    ensures
        first_colon(s) == Some(i),
    decreases i,
{
    if i > 0 {
        lemma_first_colon_at(s.drop_first(), i - 1);
    }
}

proof fn lemma_first_colon_none(s: Seq<char>)
    requires
        forall|j: int| 0 <= j < s.len() ==> s[j] != ':',
    ensures
        first_colon(s) is None,
    decreases s.len(),
{
    if s.len() > 0 {
        lemma_first_colon_none(s.drop_first());
    }
}

/// The position of the first `:` in `s`, if any.
fn find_colon(s: &str) -> (r: Option<usize>)
    ensures
        match r {
            Some(i) => i < s@.len() && first_colon(s@) == Some(i as int),
            None => first_colon(s@) is None,
        },
{
    let n = s.unicode_len();
    let mut i: usize = 0;
    while i < n
        invariant
            i <= n,
            n == s@.len(),
            forall|j: int| 0 <= j < i ==> s@[j] != ':',
        decreases n - i,
    {
        if s.get_char(i) == ':' {
            proof {
                lemma_first_colon_at(s@, i as int);
            }
            return Some(i);
        }
        i = i + 1;
    }
    proof {
        lemma_first_colon_none(s@);
    }
    None
}

/// The lowercase image of a string, as the standard library computes it.
pub uninterp spec fn lower_of(s: Seq<char>) -> Seq<char>;

/// Whether `s` holds no uppercase letter of the ASCII range.
pub open spec fn no_ascii_uppercase(s: Seq<char>) -> bool {
    forall|i: int| 0 <= i < s.len() ==> !('A' <= #[trigger] s[i] && s[i] <= 'Z')
}

/// Relies on str::to_lowercase: its result is the lowercase equivalent of the
/// input, a function of the input's characters alone; every letter `A` to `Z`
/// maps to its lowercase form, so none survives in the result.
#[verifier::external_body]
fn lowercase(s: &str) -> (r: String)
    ensures
        r@ == lower_of(s@),
        no_ascii_uppercase(r@),
{
    s.to_lowercase()
}

/// The two fields of a trimmed line: the text before the first `:`, and the
/// text between the first `:` and the second one or the end. A line without a
/// separator has no second field and is rejected; anything past a second `:`
/// is ignored.
pub open spec fn split_fields(t: Seq<char>) -> Option<(Seq<char>, Seq<char>)> {
    match first_colon(t) {
        None => None,
        Some(i) => {
            let rest = t.subrange(i + 1, t.len() as int);
            let f2 = match first_colon(rest) {
                None => rest,
                Some(j) => rest.subrange(0, j),
            };
            Some((t.subrange(0, i), f2))
        },
    }
}

/// What one raw line of the corpus parses to: the lowercased hash text and
/// the occurrence count, or nothing when the line is rejected. Trailing
/// whitespace is trimmed first; the count field must be a decimal numeral
/// that fits in a `u64`.
pub open spec fn parse_line_spec(s: Seq<char>) -> Option<(Seq<char>, u64)> {
    match split_fields(trim_end_spec(s)) {
        None => None,
        Some((f1, f2)) => if is_u64_numeral(f2) {
            Some((lower_of(f1), u64_numeral_value(f2) as u64))
        } else {
            None
        },
    }
}

/// Whether a raw line yields an entry.
pub open spec fn line_parses(s: Seq<char>) -> bool {
    parse_line_spec(s) is Some
}

/// Parses one raw line of the corpus, terminator included, into an entry.
/// The entry records the lowercased hash text, the occurrence count, and the
/// byte length of the line as it stood in the stream. A line with no `:`
/// separator, or whose count field is not a decimal numeral that fits in a
/// `u64`, yields nothing.
pub fn parse_entry_line(line: &str) -> (r: Option<crate::PasswordHashEntry>)
    ensures
        match r {
            Some(e) => {
                &&& parse_line_spec(line@) == Some((e.hash@, e.occurrences))
                &&& e.entry_size == line.spec_bytes().len()
                &&& no_ascii_uppercase(e.hash@)
            },
            None => parse_line_spec(line@) is None,
        },
{
    let entry_size = line.as_bytes().len() as u64;
    let trimmed = trim_end(line);
    let t_len = trimmed.unicode_len();
    let ci = match find_colon(trimmed) {
        Some(i) => i,
        None => {
            return None;
        },
    };
    let f1 = trimmed.substring_char(0, ci);
    let rest = trimmed.substring_char(ci + 1, t_len);
    let f2 = match find_colon(rest) {
        Some(j) => rest.substring_char(0, j),
        None => rest,
    };
    let occurrences = match parse_u64(f2) {
        Some(v) => v,
        None => {
            return None;
        },
    };
    let hash = lowercase(f1);
    Some(crate::PasswordHashEntry { hash, occurrences, entry_size })
}

/// The summed `entry_size` of a sequence of entries.
pub open spec fn total_entry_size(es: Seq<crate::PasswordHashEntry>) -> int
    decreases es.len(),
{
    if es.len() == 0 {
        0
    } else {
        total_entry_size(es.drop_last()) + es.last().entry_size
    }
}

/// The summed byte length of a sequence of lines.
pub open spec fn total_byte_len(lines: Seq<Seq<char>>) -> int
    decreases lines.len(),
{
    if lines.len() == 0 {
        0
    } else {
        total_byte_len(lines.drop_last()) + encode_utf8(lines.last()).len()
    }
}

/// Law: when every line yields an entry, the entry sizes account for every
/// byte of the corpus: their sum equals the summed byte length of the lines.
pub proof fn lemma_entry_sizes_account_for_all_bytes(
    lines: Seq<Seq<char>>,
    entries: Seq<crate::PasswordHashEntry>,
)
    requires
        entries.len() == lines.len(),
        forall|i: int| 0 <= i < entries.len() ==> #[trigger] entries[i].entry_size == encode_utf8(
            lines[i],
        ).len(),
    ensures
        total_entry_size(entries) == total_byte_len(lines),
    decreases entries.len(),
{
    if entries.len() > 0 {
        assert forall|i: int| 0 <= i < entries.drop_last().len() implies #[trigger] entries.drop_last()[i].entry_size
            == encode_utf8(lines.drop_last()[i]).len() by {
            assert(entries.drop_last()[i] == entries[i]);
            assert(lines.drop_last()[i] == lines[i]);
        }
        lemma_entry_sizes_account_for_all_bytes(lines.drop_last(), entries.drop_last());
    }
}

/// Law: the hash text of every parsed entry is the lowercase image of the
/// line's hash field, whatever the field's case in the file.
pub proof fn lemma_entry_hash_is_lowercased(s: Seq<char>)
    requires
        line_parses(s),
    ensures
        split_fields(trim_end_spec(s)) is Some,
        parse_line_spec(s).unwrap().0 == lower_of(split_fields(trim_end_spec(s)).unwrap().0),
{
}

/// Law: a line with no `:` separator yields no entry, and so does a line
/// whose occurrence field is not a decimal numeral that fits in a `u64`.
pub proof fn lemma_malformed_line_yields_no_entry(s: Seq<char>)
    ensures
        first_colon(trim_end_spec(s)) is None ==> !line_parses(s),
        (split_fields(trim_end_spec(s)) is Some && !is_u64_numeral(
            split_fields(trim_end_spec(s)).unwrap().1,
        )) ==> !line_parses(s),
{
}

/// Parses raw lines in order into entries, stopping at the first line that
/// yields none: the entries of the longest parsing prefix, one per line. When
/// every line parses, one entry per line comes back and the entry sizes sum
/// to the byte length of all the lines together.
pub fn parse_lines(lines: &Vec<String>) -> (r: Vec<crate::PasswordHashEntry>)
    ensures
        r@.len() <= lines@.len(),
        forall|i: int| 0 <= i < r@.len() ==> line_parses(#[trigger] lines@[i]@),
        forall|i: int| 0 <= i < r@.len() ==> parse_line_spec(#[trigger] lines@[i]@) == Some(
            (r@[i].hash@, r@[i].occurrences),
        ),
        forall|i: int| 0 <= i < r@.len() ==> #[trigger] r@[i].entry_size == encode_utf8(
            lines@[i]@,
        ).len(),
        forall|i: int| 0 <= i < r@.len() ==> no_ascii_uppercase(#[trigger] r@[i].hash@),
        r@.len() < lines@.len() ==> !line_parses(lines@[r@.len() as int]@),
        (forall|i: int| 0 <= i < lines@.len() ==> line_parses(#[trigger] lines@[i]@)) ==> {
            &&& r@.len() == lines@.len()
            &&& total_entry_size(r@) == total_byte_len(lines@.map_values(|l: String| l@))
        },
{
    let mut out: Vec<crate::PasswordHashEntry> = Vec::new();
    let mut i: usize = 0;
    while i < lines.len()
        invariant
            i <= lines@.len(),
            out@.len() == i,
            forall|j: int| 0 <= j < i ==> line_parses(#[trigger] lines@[j]@),
            forall|j: int| 0 <= j < i ==> parse_line_spec(#[trigger] lines@[j]@) == Some(
                (out@[j].hash@, out@[j].occurrences),
            ),
            forall|j: int| 0 <= j < i ==> #[trigger] out@[j].entry_size == encode_utf8(
                lines@[j]@,
            ).len(),
            forall|j: int| 0 <= j < i ==> no_ascii_uppercase(#[trigger] out@[j].hash@),
        decreases lines@.len() - i,
    {
        match parse_entry_line(lines[i].as_str()) {
            Some(e) => {
                out.push(e);
            },
            None => {
                proof {
                    assert(!line_parses(lines@[i as int]@));
                }
                return out;
            },
        }
        i = i + 1;
    }
    proof {
        if forall|j: int| 0 <= j < lines@.len() ==> line_parses(#[trigger] lines@[j]@) {
            let views = lines@.map_values(|l: String| l@);
            assert forall|j: int| 0 <= j < out@.len() implies #[trigger] out@[j].entry_size
                == encode_utf8(views[j]).len() by {
                assert(views[j] == lines@[j]@);
            }
            lemma_entry_sizes_account_for_all_bytes(views, out@);
        }
    }
    out
}

} // verus!
