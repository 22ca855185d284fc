//! The log directory protocol: file names carry 20-digit zero-padded
//! version numbers, a log file holds newline-delimited action records, and a
//! replay scan reads the files in descending version order.

use vstd::prelude::*;
use crate::actions::{spec_decode_action, Action, ActionView};
use crate::error::DeltaError;
use crate::replay::acts_view;
use crate::text::{
    all_digits, dec_val, fmt_padded20, is_digit, lemma_padded_dec_shape, padded_dec,
    push_str_chars, string_from_chars, ten_pow,
};

verus! {

// ---------------------------------------------------------------------------
// file names
// ---------------------------------------------------------------------------

/// The name of log version `v`: the 20-digit zero-padded numeral and the
/// `.json` suffix.
pub open spec fn log_name_seq(v: nat) -> Seq<char> {
    padded_dec(v, 20) + (".json")@
}

/// The name of data file `i`: the 20-digit zero-padded numeral and the
/// `.parquet` suffix.
pub open spec fn data_name_seq(i: nat) -> Seq<char> {
    padded_dec(i, 20) + (".parquet")@
}

/// Whether `s` is a well-formed log file name.
pub open spec fn is_log_name(s: Seq<char>) -> bool {
    s.len() == 25 && all_digits(s.take(20)) && s.skip(20) == (".json")@ && dec_val(s.take(20))
        <= u64::MAX
}

/// The version a well-formed log file name carries.
pub open spec fn log_version_of(s: Seq<char>) -> u64 {
    dec_val(s.take(20)) as u64
}

/// Whether `s` is a well-formed data file name.
pub open spec fn is_data_name(s: Seq<char>) -> bool {
    s.len() == 28 && all_digits(s.take(20)) && s.skip(20) == (".parquet")@ && dec_val(s.take(20))
        <= u64::MAX
}

/// The index a well-formed data file name carries.
pub open spec fn data_index_of(s: Seq<char>) -> u64 {
    dec_val(s.take(20)) as u64
}

/// The name written for a version parses back to that version.
pub proof fn lemma_log_name_version(v: u64)
    ensures
        is_log_name(log_name_seq(v as nat)),
        log_version_of(log_name_seq(v as nat)) == v,
{
    reveal_strlit(".json");
    lemma_padded_dec_shape(v as nat, 20);
    reveal_with_fuel(ten_pow, 21);
    assert(ten_pow(20) > u64::MAX);
    crate::text::lemma_dec_digits_len(v as nat, 20);
    let s = log_name_seq(v as nat);
    assert(padded_dec(v as nat, 20).len() == 20);
    assert(s.take(20) =~= padded_dec(v as nat, 20));
    assert(s.skip(20) =~= (".json")@);
}

/// The name written for a data index parses back to that index.
pub proof fn lemma_data_name_index(i: u64)
    ensures
        is_data_name(data_name_seq(i as nat)),
        data_index_of(data_name_seq(i as nat)) == i,
{
    reveal_strlit(".parquet");
    lemma_padded_dec_shape(i as nat, 20);
    reveal_with_fuel(ten_pow, 21);
    assert(ten_pow(20) > u64::MAX);
    crate::text::lemma_dec_digits_len(i as nat, 20);
    let s = data_name_seq(i as nat);
    assert(padded_dec(i as nat, 20).len() == 20);
    assert(s.take(20) =~= padded_dec(i as nat, 20));
    assert(s.skip(20) =~= (".parquet")@);
}

/// Writes the log file name of version `v`.
pub fn log_file_name(v: u64) -> (r: String)
    ensures
        r@ == log_name_seq(v as nat),
{
    let mut cs = fmt_padded20(v);
    push_str_chars(&mut cs, ".json");
    string_from_chars(&cs)
}

/// Writes the data file name of index `i`.
pub fn data_file_name(i: u64) -> (r: String)
    ensures
        r@ == data_name_seq(i as nat),
{
    let mut cs = fmt_padded20(i);
    push_str_chars(&mut cs, ".parquet");
    string_from_chars(&cs)
}

/// Reads the 20-digit numeral and checks the given suffix; shared by the two
/// name parsers. `total` is the full name length, suffix included.
fn parse_padded_name(cs: &Vec<char>, suffix: &str, total: usize) -> (r: Option<u64>)
    requires
        total == 20 + suffix@.len(),
    ensures
        match r {
            Some(v) => cs@.len() == total && all_digits(cs@.take(20)) && cs@.skip(20) == suffix@
                && dec_val(cs@.take(20)) == v as nat && v <= u64::MAX,
            None => !(cs@.len() == total && all_digits(cs@.take(20)) && cs@.skip(20) == suffix@
                && dec_val(cs@.take(20)) <= u64::MAX),
        },
{
    if cs.len() != total {
        return None;
    }
    let mut v: u128 = 0;
    let mut k: usize = 0;
    proof {
        reveal_with_fuel(ten_pow, 21);
        assert(ten_pow(20) <= u128::MAX);
    }
    while k < 20
        invariant
            k <= 20,
            cs@.len() == total,
            total == 20 + suffix@.len(),
            all_digits(cs@.take(k as int)),
            v as nat == dec_val(cs@.take(k as int)),
            (v as nat) < ten_pow(k as nat),
            ten_pow(20) <= u128::MAX,
        decreases 20 - k,
    {
        let c = cs[k];
        let u = c as u32;
        if u < 48 || u > 57 {
            proof {
                assert(!is_digit(cs@[k as int]));
                if all_digits(cs@.take(20)) {
                    assert(cs@.take(20)[k as int] == cs@[k as int]);
                }
            }
            return None;
        }
        proof {
            assert(is_digit(cs@[k as int]));
            assert(cs@.take(k + 1 as int).drop_last() =~= cs@.take(k as int));
            assert(cs@.take(k + 1 as int).last() == cs@[k as int]);
            assert(all_digits(cs@.take(k + 1 as int))) by {
                assert(forall|m: int|
                    0 <= m < k + 1 ==> #[trigger] cs@.take(k + 1 as int)[m] == cs@[m]);
            }
            assert(ten_pow((k + 1) as nat) == 10 * ten_pow(k as nat));
            crate::text::lemma_ten_pow_mono((k + 1) as nat, 20);
            assert((v as nat) * 10 + (u - 48) < ten_pow((k + 1) as nat));
        }
        let d = (u - 48) as u128;
        v = v * 10 + d;
        k = k + 1;
    }
    let sfx = crate::text::chars_of_str(suffix);
    let mut m: usize = 0;
    while m < sfx.len()
        invariant
            cs@.len() == total,
            total == 20 + sfx@.len(),
            sfx@ == suffix@,
            m <= sfx@.len(),
            forall|j: int| 0 <= j < m ==> cs@.skip(20)[j] == sfx@[j],
        decreases sfx@.len() - m,
    {
        if cs[20 + m] != sfx[m] {
            proof {
                assert(cs@.skip(20)[m as int] != sfx@[m as int]);
            }
            return None;
        }
        m = m + 1;
    }
    proof {
        assert(cs@.skip(20) =~= suffix@);
        assert(cs@.take(20) =~= cs@.take(20 as int));
    }
    if v > u64::MAX as u128 {
        return None;
    }
    Some(v as u64)
}

// ---------------------------------------------------------------------------
// log files and their order
// ---------------------------------------------------------------------------

/// One file of the log directory: its name and its text.
#[derive(Debug, PartialEq, Eq, Clone)]
pub struct LogFile {
    pub name: String,
    pub content: String,
}

impl View for LogFile {
    type V = (Seq<char>, Seq<char>);

    open spec fn view(&self) -> (Seq<char>, Seq<char>) {
        (self.name@, self.content@)
    }
}

pub open spec fn files_view(v: Seq<LogFile>) -> Seq<(Seq<char>, Seq<char>)> {
    v.map_values(|f: LogFile| (f.name@, f.content@))
}

/// The views of parsed `(version, content)` pairs.
pub open spec fn parsed_view(v: Seq<(u64, String)>) -> Seq<(u64, Seq<char>)> {
    v.map_values(|p: (u64, String)| (p.0, p.1@))
}

/// The `(version, content)` pairs of the well-named files, in input order;
/// files whose names do not follow the version protocol are not part of the
/// log and are ignored.
pub open spec fn parsed_logs(files: Seq<(Seq<char>, Seq<char>)>) -> Seq<(u64, Seq<char>)>
    decreases files.len(),
{
    if files.len() == 0 {
        Seq::empty()
    } else {
        let front = parsed_logs(files.drop_last());
        let f = files.last();
        if is_log_name(f.0) {
            front.push((log_version_of(f.0), f.1))
        } else {
            front
        }
    }
}

/// Places `x` before the first entry whose version is not above `x`'s.
pub open spec fn insert_desc(x: (u64, Seq<char>), r: Seq<(u64, Seq<char>)>) -> Seq<
    (u64, Seq<char>),
>
    decreases r.len(),
{
    if r.len() == 0 {
        seq![x]
    } else if x.0 >= r[0].0 {
        seq![x] + r
    } else {
        seq![r[0]] + insert_desc(x, r.skip(1))
    }
}

/// Insertion sort by version, highest first.
pub open spec fn sort_desc(s: Seq<(u64, Seq<char>)>) -> Seq<(u64, Seq<char>)>
    decreases s.len(),
{
    if s.len() == 0 {
        Seq::empty()
    } else {
        insert_desc(s.last(), sort_desc(s.drop_last()))
    }
}

/// Versions never increase along the run.
pub open spec fn desc_sorted(s: Seq<(u64, Seq<char>)>) -> bool {
    forall|i: int, j: int| 0 <= i < j < s.len() ==> (#[trigger] s[i]).0 >= (#[trigger] s[j]).0
}

/// What an insertion holds: the new entry and the old ones.
proof fn lemma_insert_desc_elems(x: (u64, Seq<char>), r: Seq<(u64, Seq<char>)>)
    ensures
        insert_desc(x, r).len() == r.len() + 1,
        forall|m: int|
            0 <= m < insert_desc(x, r).len() ==> (#[trigger] insert_desc(x, r)[m]) == x
                || r.contains(insert_desc(x, r)[m]),
    decreases r.len(),
{
    if r.len() == 0 {
    } else if x.0 >= r[0].0 {
        assert forall|m: int| 0 <= m < insert_desc(x, r).len() implies (#[trigger] insert_desc(
            x,
            r,
        )[m]) == x || r.contains(insert_desc(x, r)[m]) by {
            if m > 0 {
                assert(insert_desc(x, r)[m] == r[m - 1]);
            }
        }
    } else {
        lemma_insert_desc_elems(x, r.skip(1));
        let out = insert_desc(x, r);
        assert(out == seq![r[0]] + insert_desc(x, r.skip(1)));
        assert forall|m: int| 0 <= m < out.len() implies (#[trigger] out[m]) == x || r.contains(
            out[m],
        ) by {
            if m == 0 {
                assert(out[0] == r[0]);
                assert(r.contains(r[0]));
            } else {
                let inner = insert_desc(x, r.skip(1));
                assert(out[m] == inner[m - 1]);
                if inner[m - 1] != x {
                    assert(r.skip(1).contains(inner[m - 1]));
                    let w = choose|w: int|
                        0 <= w < r.skip(1).len() && r.skip(1)[w] == inner[m - 1];
                    assert(r[w + 1] == inner[m - 1]);
                }
            }
        }
    }
}

/// Insertion keeps the run sorted.
proof fn lemma_insert_desc_sorted(x: (u64, Seq<char>), r: Seq<(u64, Seq<char>)>)
    requires
        desc_sorted(r),
    ensures
        desc_sorted(insert_desc(x, r)),
    decreases r.len(),
{
    if r.len() == 0 {
    } else if x.0 >= r[0].0 {
        let out = insert_desc(x, r);
        assert forall|i: int, j: int| 0 <= i < j < out.len() implies (#[trigger] out[i]).0 >= (
        #[trigger] out[j]).0 by {
            if i == 0 {
                assert(out[j] == r[j - 1]);
                if j > 1 {
                    assert(r[0].0 >= r[j - 1].0);
                }
            } else {
                assert(out[i] == r[i - 1] && out[j] == r[j - 1]);
            }
        }
    } else {
        assert(desc_sorted(r.skip(1))) by {
            assert(forall|i: int, j: int|
                0 <= i < j < r.skip(1).len() ==> (#[trigger] r.skip(1)[i]).0 >= (
                #[trigger] r.skip(1)[j]).0);
        }
        lemma_insert_desc_sorted(x, r.skip(1));
        lemma_insert_desc_elems(x, r.skip(1));
        let inner = insert_desc(x, r.skip(1));
        let out = insert_desc(x, r);
        assert(out == seq![r[0]] + inner);
        assert forall|i: int, j: int| 0 <= i < j < out.len() implies (#[trigger] out[i]).0 >= (
        #[trigger] out[j]).0 by {
            if i == 0 {
                assert(out[j] == inner[j - 1]);
                if inner[j - 1] == x {
                    assert(r[0].0 >= x.0);
                } else {
                    assert(r.skip(1).contains(inner[j - 1]));
                    let w = choose|w: int|
                        0 <= w < r.skip(1).len() && r.skip(1)[w] == inner[j - 1];
                    assert(r[w + 1] == inner[j - 1]);
                    assert(r[0].0 >= r[w + 1].0);
                }
            } else {
                assert(out[i] == inner[i - 1] && out[j] == inner[j - 1]);
            }
        }
    }
}

/// The scan order of replay: the well-named log files, sorted so that
/// versions never increase — newest first.
pub proof fn lemma_sort_desc_sorted(s: Seq<(u64, Seq<char>)>)
    ensures
        desc_sorted(sort_desc(s)),
    decreases s.len(),
{
    if s.len() > 0 {
        lemma_sort_desc_sorted(s.drop_last());
        lemma_insert_desc_sorted(s.last(), sort_desc(s.drop_last()));
    }
}

// ---------------------------------------------------------------------------
// splitting a file into lines
// ---------------------------------------------------------------------------

/// The position of the first newline, or the length if there is none.
pub open spec fn first_nl(s: Seq<char>) -> int
    decreases s.len(),
{
    if s.len() == 0 {
        0
    } else if s[0] == '\n' {
        0
    } else {
        1 + first_nl(s.skip(1))
    }
}

/// The newline-delimited lines of `s`; empty text has no lines.
pub open spec fn split_lines(s: Seq<char>) -> Seq<Seq<char>>
    decreases s.len(),
{
    if s.len() == 0 {
        Seq::empty()
    } else {
        let k = first_nl(s);
        if 0 <= k < s.len() {
            seq![s.take(k)] + split_lines(s.skip(k + 1))
        } else {
            seq![s]
        }
    }
}

pub open spec fn lines_view(v: Seq<Vec<char>>) -> Seq<Seq<char>> {
    v.map_values(|x: Vec<char>| x@)
}

/// Splits the characters from position `i` on into lines.
fn split_chars_at(cs: &Vec<char>, i: usize) -> (r: Vec<Vec<char>>)
    requires
        i <= cs@.len(),
    ensures
        lines_view(r@) == split_lines(cs@.skip(i as int)),
    decreases cs@.len() - i,
{
    let ghost suf = cs@.skip(i as int);
    if i == cs.len() {
        let r: Vec<Vec<char>> = Vec::new();
        proof {
            assert(suf.len() == 0);
            assert(lines_view(r@) =~= split_lines(suf));
        }
        return r;
    }
    let mut j: usize = i;
    let mut line: Vec<char> = Vec::new();
    while j < cs.len() && cs[j] != '\n'
        invariant
            i <= j <= cs@.len(),
            suf == cs@.skip(i as int),
            first_nl(suf) == (j - i) + first_nl(cs@.skip(j as int)),
            line@ == suf.take(j - i),
        decreases cs@.len() - j,
    {
        proof {
            let pre = cs@.skip(j as int);
            assert(pre[0] == cs@[j as int]);
            assert(pre.skip(1) =~= cs@.skip(j + 1 as int));
            assert(first_nl(pre) == 1 + first_nl(cs@.skip(j + 1 as int)));
        }
        line.push(cs[j]);
        j = j + 1;
        proof {
            assert(line@ =~= suf.take(j - i));
        }
    }
    proof {
        if j == cs@.len() {
            assert(cs@.skip(j as int).len() == 0);
            assert(first_nl(cs@.skip(j as int)) == 0);
        } else {
            assert(cs@.skip(j as int)[0] == cs@[j as int]);
            assert(first_nl(cs@.skip(j as int)) == 0);
        }
        assert(first_nl(suf) == j - i);
    }
    if j == cs.len() {
        // no newline: the rest is one line
        let mut r: Vec<Vec<char>> = Vec::new();
        proof {
            assert(line@ =~= suf);
        }
        r.push(line);
        proof {
            assert(first_nl(suf) == suf.len());
            assert(lines_view(r@) =~= split_lines(suf));
        }
        return r;
    }
    let rest = split_chars_at(cs, j + 1);
    let mut r: Vec<Vec<char>> = Vec::new();
    r.push(line);
    let mut rest = rest;
    r.append(&mut rest);
    proof {
        assert(suf.skip((j - i) + 1) =~= cs@.skip(j + 1 as int));
        assert(first_nl(suf) < suf.len());
        assert(lines_view(r@) =~= split_lines(suf));
    }
    r
}

// ---------------------------------------------------------------------------
// decoding a log
// ---------------------------------------------------------------------------

/// Decodes every line, or nothing if any line is malformed.
pub open spec fn decode_lines(lines: Seq<Seq<char>>) -> Option<Seq<ActionView>>
    decreases lines.len(),
{
    if lines.len() == 0 {
        Some(Seq::empty())
    } else {
        match decode_lines(lines.drop_last()) {
            None => None,
            Some(front) => match spec_decode_action(lines.last()) {
                None => None,
                Some(a) => Some(front.push(a)),
            },
        }
    }
}

/// The actions of one log file's text.
pub open spec fn decode_log_content(c: Seq<char>) -> Option<Seq<ActionView>> {
    decode_lines(split_lines(c))
}

/// The actions of a run of log files, in file order, or nothing if any line
/// anywhere is malformed.
pub open spec fn decode_ordered(fs: Seq<(u64, Seq<char>)>) -> Option<Seq<ActionView>>
    decreases fs.len(),
{
    if fs.len() == 0 {
        Some(Seq::empty())
    } else {
        match decode_ordered(fs.drop_last()) {
            None => None,
            Some(front) => match decode_log_content(fs.last().1) {
                None => None,
                Some(acts) => Some(front + acts),
            },
        }
    }
}

/// The full scan of a log directory: the well-named files, newest first,
/// flattened into one action sequence.
pub open spec fn scan_of(files: Seq<(Seq<char>, Seq<char>)>) -> Option<Seq<ActionView>> {
    decode_ordered(sort_desc(parsed_logs(files)))
}

/// Decodes one file's text into its actions.
fn decode_content(content: &String) -> (r: Result<Vec<Action>, DeltaError>)
    ensures
        match r {
            Ok(acts) => decode_log_content(content@) == Some(acts_view(acts@)),
            Err(e) => decode_log_content(content@) is None && e
                == DeltaError::SerializationFailure,
        },
{
    let cs = crate::text::chars_of_str(content.as_str());
    proof {
        assert(cs@.skip(0) =~= cs@);
    }
    let lines = split_chars_at(&cs, 0);
    let mut acts: Vec<Action> = Vec::new();
    let mut k: usize = 0;
    while k < lines.len()
        invariant
            k <= lines@.len(),
            lines_view(lines@) == split_lines(content@),
            decode_lines(lines_view(lines@).take(k as int)) == Some(acts_view(acts@)),
        decreases lines@.len() - k,
    {
        let a = match Action::decode_chars(&lines[k]) {
            Some(a) => a,
            None => {
                proof {
                    lemma_decode_lines_bad(lines_view(lines@), k as int);
                }
                return Err(DeltaError::SerializationFailure);
            },
        };
        acts.push(a);
        k = k + 1;
        proof {
            assert(lines_view(lines@).take(k as int).drop_last() =~= lines_view(lines@).take(
                k - 1 as int,
            ));
            assert(lines_view(lines@).take(k as int).last() == lines_view(lines@)[k - 1 as int]);
            assert(acts_view(acts@) =~= acts_view(acts@.drop_last()).push(acts@.last()@));
        }
    }
    proof {
        assert(lines_view(lines@).take(k as int) =~= lines_view(lines@));
    }
    Ok(acts)
}

/// A malformed line anywhere spoils the whole decode.
proof fn lemma_decode_lines_bad(lines: Seq<Seq<char>>, k: int)
    requires
        0 <= k < lines.len(),
        spec_decode_action(lines[k]) is None,
    ensures
        decode_lines(lines) is None,
    decreases lines.len(),
{
    if lines.len() > 0 {
        if k == lines.len() - 1 {
        } else {
            assert(lines.drop_last()[k] == lines[k]);
            lemma_decode_lines_bad(lines.drop_last(), k);
        }
    }
}

/// Parses and orders a directory's files, newest version first.
fn ordered_logs(files: &Vec<LogFile>) -> (r: Vec<(u64, String)>)
    ensures
        parsed_view(r@) == sort_desc(parsed_logs(files_view(files@))),
{
    let ghost fv = files_view(files@);
    let mut acc: Vec<(u64, String)> = Vec::new();
    let mut k: usize = 0;
    proof {
        assert(parsed_view(acc@) =~= sort_desc(
            parsed_logs(fv.take(0)),
        ));
    }
    while k < files.len()
        invariant
            k <= files@.len(),
            fv == files_view(files@),
            parsed_view(acc@) == sort_desc(
                parsed_logs(fv.take(k as int)),
            ),
        decreases files@.len() - k,
    {
        let name_cs = crate::text::chars_of_str(files[k].name.as_str());
        let ghost f = fv[k as int];
        proof {
            reveal_strlit(".json");
            assert(f == (files@[k as int].name@, files@[k as int].content@));
            assert(fv.take(k + 1 as int).drop_last() =~= fv.take(k as int));
            assert(fv.take(k + 1 as int).last() == f);
        }
        match parse_padded_name(&name_cs, ".json", 25) {
            Some(v) => {
                proof {
                    assert(is_log_name(f.0));
                    assert(log_version_of(f.0) == v);
                    assert(parsed_logs(fv.take(k + 1 as int)) =~= parsed_logs(
                        fv.take(k as int),
                    ).push((v, f.1)));
                }
                let content = files[k].content.clone();
                proof {
                    assert(content@ == f.1);
                }
                acc = insert_sorted((v, content), acc);
                proof {
                    let x1 = parsed_logs(fv.take(k + 1 as int));
                    assert(x1 =~= parsed_logs(fv.take(k as int)).push((v, f.1)));
                    assert(x1.drop_last() =~= parsed_logs(fv.take(k as int)));
                    assert(x1.last() == (v, f.1));
                    assert(sort_desc(x1) == insert_desc(
                        (v, f.1),
                        sort_desc(parsed_logs(fv.take(k as int))),
                    ));
                }
            },
            None => {
                proof {
                    assert(!is_log_name(f.0));
                    assert(parsed_logs(fv.take(k + 1 as int)) =~= parsed_logs(fv.take(k as int)));
                }
            },
        }
        k = k + 1;
    }
    proof {
        assert(fv.take(k as int) =~= fv);
    }
    acc
}

/// Inserts one parsed file into a version-descending run.
fn insert_sorted(x: (u64, String), v: Vec<(u64, String)>) -> (r: Vec<(u64, String)>)
    ensures
        parsed_view(r@) == insert_desc(
            (x.0, x.1@),
            parsed_view(v@),
        ),
{
    let ghost xv = (x.0, x.1@);
    let ghost vv = parsed_view(v@);
    let mut k: usize = 0;
    while k < v.len() && v[k].0 > x.0
        invariant
            k <= v@.len(),
            vv == parsed_view(v@),
            xv == (x.0, x.1@),
            forall|j: int| 0 <= j < k ==> vv[j].0 > xv.0,
        decreases v@.len() - k,
    {
        proof {
            assert(vv[k as int] == (v@[k as int].0, v@[k as int].1@));
            assert(v@[k as int].0 > x.0);
            assert(xv.0 == x.0);
            assert(vv[k as int].0 > xv.0);
            assert forall|j: int| 0 <= j < k + 1 implies vv[j].0 > xv.0 by {
                if j == k {
                    assert(vv[k as int].0 > xv.0);
                }
            }
        }
        k = k + 1;
    }
    proof {
        if k < v@.len() {
            assert(vv[k as int].0 == v@[k as int].0);
            assert(xv.0 >= vv[k as int].0);
        }
        lemma_insert_desc_at(xv, vv, k as int);
    }
    let mut r = v;
    r.insert(k, x);
    proof {
        assert(parsed_view(r@) =~= vv.take(k as int) + seq![xv]
            + vv.skip(k as int));
    }
    r
}

/// Where the insertion lands: before the first entry whose version is not
/// above the new one's.
proof fn lemma_insert_desc_at(x: (u64, Seq<char>), r: Seq<(u64, Seq<char>)>, k: int)
    requires
        0 <= k <= r.len(),
        forall|j: int| 0 <= j < k ==> r[j].0 > x.0,
        k < r.len() ==> x.0 >= r[k].0,
    ensures
        insert_desc(x, r) == r.take(k) + seq![x] + r.skip(k),
    decreases k,
{
    if k == 0 {
        if r.len() == 0 {
            assert(insert_desc(x, r) =~= r.take(0) + seq![x] + r.skip(0));
        } else {
            assert(insert_desc(x, r) =~= r.take(0) + seq![x] + r.skip(0));
        }
    } else {
        assert(r[0].0 > x.0);
        lemma_insert_desc_at(x, r.skip(1), k - 1);
        assert(r.skip(1).take(k - 1) =~= r.take(k).skip(1));
        assert(r.skip(1).skip(k - 1) =~= r.skip(k));
        assert(insert_desc(x, r) =~= r.take(k) + seq![x] + r.skip(k));
    }
}

/// Reads a whole log directory into its action scan, newest version first.
/// A file whose name is not a 20-digit version with the `.json` suffix is
/// not part of the log and is ignored; a malformed line in any log file is a
/// `SerializationFailure`.
pub fn load_actions(files: &Vec<LogFile>) -> (r: Result<Vec<Action>, DeltaError>)
    ensures
        match r {
            Ok(acts) => scan_of(files_view(files@)) == Some(acts_view(acts@)),
            Err(e) => scan_of(files_view(files@)) is None && e == DeltaError::SerializationFailure,
        },
{
    let ordered = ordered_logs(files);
    let ghost ov = parsed_view(ordered@);
    let mut acts: Vec<Action> = Vec::new();
    let mut k: usize = 0;
    proof {
        assert(acts_view(acts@) =~= Seq::<ActionView>::empty());
        assert(decode_ordered(ov.take(0)) == Some(acts_view(acts@)));
    }
    while k < ordered.len()
        invariant
            k <= ordered@.len(),
            ov == parsed_view(ordered@),
            ov == sort_desc(parsed_logs(files_view(files@))),
            decode_ordered(ov.take(k as int)) == Some(acts_view(acts@)),
        decreases ordered@.len() - k,
    {
        proof {
            assert(ov.take(k + 1 as int).drop_last() =~= ov.take(k as int));
            assert(ov.take(k + 1 as int).last() == ov[k as int]);
            assert(ov[k as int].1 == ordered@[k as int].1@);
        }
        let mut file_acts = match decode_content(&ordered[k].1) {
            Ok(a) => a,
            Err(e) => {
                proof {
                    lemma_decode_ordered_bad(ov, k as int);
                }
                return Err(DeltaError::SerializationFailure);
            },
        };
        let ghost acts0 = acts@;
        let ghost file0 = file_acts@;
        acts.append(&mut file_acts);
        k = k + 1;
        proof {
            assert(acts_view(acts@) =~= acts_view(acts0) + acts_view(file0));
        }
    }
    proof {
        assert(ov.take(k as int) =~= ov);
    }
    Ok(acts)
}

/// An undecodable file anywhere spoils the whole scan.
proof fn lemma_decode_ordered_bad(fs: Seq<(u64, Seq<char>)>, k: int)
    requires
        0 <= k < fs.len(),
        decode_log_content(fs[k].1) is None,
    ensures
        decode_ordered(fs) is None,
    decreases fs.len(),
{
    if fs.len() > 0 {
        if k == fs.len() - 1 {
        } else {
            assert(fs.drop_last()[k] == fs[k]);
            lemma_decode_ordered_bad(fs.drop_last(), k);
        }
    }
}

// ---------------------------------------------------------------------------
// version and index counters
// ---------------------------------------------------------------------------

/// The highest version among the well-named log files.
pub open spec fn max_log_version(files: Seq<(Seq<char>, Seq<char>)>) -> Option<u64>
    decreases files.len(),
{
    if files.len() == 0 {
        None
    } else {
        let front = max_log_version(files.drop_last());
        let f = files.last();
        if is_log_name(f.0) {
            match front {
                None => Some(log_version_of(f.0)),
                Some(m) => if log_version_of(f.0) > m {
                    Some(log_version_of(f.0))
                } else {
                    Some(m)
                },
            }
        } else {
            front
        }
    }
}

/// The version the next log entry must use: one above the highest present,
/// or zero in an empty log directory. The version space running out is the
/// one failure.
pub fn next_log_version(files: &Vec<LogFile>) -> (r: Option<u64>)
    ensures
        match r {
            Some(v) => match max_log_version(files_view(files@)) {
                None => v == 0,
                Some(m) => m < u64::MAX && v == m + 1,
            },
            None => max_log_version(files_view(files@)) == Some(u64::MAX),
        },
{
    let ghost fv = files_view(files@);
    let mut cur: Option<u64> = None;
    let mut k: usize = 0;
    while k < files.len()
        invariant
            k <= files@.len(),
            fv == files_view(files@),
            cur == max_log_version(fv.take(k as int)),
        decreases files@.len() - k,
    {
        let name_cs = crate::text::chars_of_str(files[k].name.as_str());
        proof {
            reveal_strlit(".json");
            assert(fv[k as int] == (files@[k as int].name@, files@[k as int].content@));
            assert(fv.take(k + 1 as int).drop_last() =~= fv.take(k as int));
            assert(fv.take(k + 1 as int).last() == fv[k as int]);
        }
        match parse_padded_name(&name_cs, ".json", 25) {
            Some(v) => {
                cur = match cur {
                    None => Some(v),
                    Some(m) => if v > m {
                        Some(v)
                    } else {
                        Some(m)
                    },
                };
            },
            None => {
                proof {
                    assert(!is_log_name(fv[k as int].0));
                }
            },
        }
        k = k + 1;
    }
    proof {
        assert(fv.take(k as int) =~= fv);
    }
    match cur {
        None => Some(0),
        Some(m) => if m == u64::MAX {
            None
        } else {
            Some(m + 1)
        },
    }
}

/// The highest data-file index named by any add action.
pub open spec fn max_data_index(acts: Seq<ActionView>) -> Option<u64>
    decreases acts.len(),
{
    if acts.len() == 0 {
        None
    } else {
        let front = max_data_index(acts.drop_last());
        match acts.last() {
            ActionView::Add { path, .. } => if is_data_name(path) {
                match front {
                    None => Some(data_index_of(path)),
                    Some(m) => if data_index_of(path) > m {
                        Some(data_index_of(path))
                    } else {
                        Some(m)
                    },
                }
            } else {
                front
            },
            _ => front,
        }
    }
}

/// The index the next data file must use: one above the highest index any
/// add action has ever committed, or zero. The index space running out is
/// the one failure.
pub fn next_data_index(actions: &Vec<Action>) -> (r: Option<u64>)
    ensures
        match r {
            Some(i) => match max_data_index(acts_view(actions@)) {
                None => i == 0,
                Some(m) => m < u64::MAX && i == m + 1,
            },
            None => max_data_index(acts_view(actions@)) == Some(u64::MAX),
        },
{
    let ghost av = acts_view(actions@);
    let mut cur: Option<u64> = None;
    let mut k: usize = 0;
    while k < actions.len()
        invariant
            k <= actions@.len(),
            av == acts_view(actions@),
            cur == max_data_index(av.take(k as int)),
        decreases actions@.len() - k,
    {
        proof {
            assert(av.take(k + 1 as int).drop_last() =~= av.take(k as int));
            assert(av.take(k + 1 as int).last() == av[k as int]);
        }
        match &actions[k] {
            Action::Add { path, .. } => {
                proof {
                    assert((av[k as int] matches ActionView::Add { path: q, .. } && q == path@));
                }
                let path_cs = crate::text::chars_of_str(path.as_str());
                proof {
                    reveal_strlit(".parquet");
                }
                match parse_padded_name(&path_cs, ".parquet", 28) {
                    Some(i) => {
                        cur = match cur {
                            None => Some(i),
                            Some(m) => if i > m {
                                Some(i)
                            } else {
                                Some(m)
                            },
                        };
                    },
                    None => {
                        proof {
                            assert(!is_data_name(path@));
                        }
                    },
                }
            },
            _ => {},
        }
        k = k + 1;
    }
    proof {
        assert(av.take(k as int) =~= av);
    }
    match cur {
        None => Some(0),
        Some(m) => if m == u64::MAX {
            None
        } else {
            Some(m + 1)
        },
    }
}

} // verus!
