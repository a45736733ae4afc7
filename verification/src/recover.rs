//! Recovery of the rotated-file list from a directory listing.
//!
//! At build time the logger re-learns which rotated siblings of the active
//! file already exist: an entry counts when it starts with the active
//! file's stem, carries a well-formed 24-character timestamp block right
//! after the stem, and ends in the active file's extension — either
//! directly, or with a compression suffix appended, in which case the
//! stored name is the entry stripped of that suffix. The surviving base
//! names are sorted lexicographically, which by the naming invariant is
//! chronological order.

use vstd::prelude::*;
use vstd::seq_lib::{to_multiset_insert, to_multiset_remove};
use vstd::string::{StrSliceExecFns, StringExecFns};

use crate::name::{
    Timestamp, digit_char, is_digit, lex_leq, lex_lt, lex_lt_exec, lemma_lex_leq_transitive,
    lemma_lex_trichotomy, spec_rotated_name, timestamp_block,
};

verus! {

/// The index of the last dot of a sequence, or -1 if it has none.
pub open spec fn last_dot(s: Seq<char>) -> int
    decreases s.len(),
{
    if s.len() == 0 {
        -1
    } else if s[s.len() - 1] == '.' {
        s.len() - 1
    } else {
        last_dot(s.drop_last())
    }
}

/// Where a name splits into stem and extension: at its last dot, or at its
/// end when it has no dot.
pub open spec fn point_index(s: Seq<char>) -> int {
    if last_dot(s) == -1 {
        s.len() as int
    } else {
        last_dot(s)
    }
}

proof fn lemma_last_dot_range(s: Seq<char>)
    ensures
        -1 <= last_dot(s) < s.len(),
        last_dot(s) >= 0 ==> s[last_dot(s)] == '.',
    decreases s.len(),
{
    if s.len() != 0 && s[s.len() - 1] != '.' {
        lemma_last_dot_range(s.drop_last());
        if last_dot(s.drop_last()) >= 0 {
            assert(s.drop_last()[last_dot(s)] == s[last_dot(s)]);
        }
    }
}

/// The stem-extension split point lies within the name.
pub proof fn lemma_point_index_range(s: Seq<char>)
    ensures
        0 <= point_index(s) <= s.len(),
{
    lemma_last_dot_range(s);
}

/// Finds the stem-extension split point of a file name.
pub fn find_point_index(s: &str) -> (r: usize)
    ensures
        r as int == point_index(s@),
        r <= s@.len(),
{
    let n = s.unicode_len();
    let mut i: usize = n;
    proof {
        assert(s@.take(n as int) =~= s@);
    }
    while i > 0
        invariant
            i <= n,
            n == s@.len(),
            last_dot(s@) == last_dot(s@.take(i as int)),
        decreases i,
    {
        let c = s.get_char(i - 1);
        proof {
            assert(s@.take(i as int).len() == i);
            assert(s@.take(i as int)[i - 1] == s@[i - 1]);
        }
        if c == '.' {
            proof {
                lemma_last_dot_range(s@);
            }
            return i - 1;
        }
        proof {
            assert(s@.take(i as int).drop_last() =~= s@.take(i as int - 1));
        }
        i = i - 1;
    }
    proof {
        assert(s@.take(0) =~= Seq::<char>::empty());
    }
    n
}

/// A digit whose value keeps a two-digit field at most 59.
pub open spec fn is_low_digit(c: char) -> bool {
    48 <= c as int <= 53
}

/// The well-formed 24-character timestamp block: a dash, a four-digit year
/// beginning with 1 or 2, five dash-separated two-digit fields each at most
/// 59, and a dash followed by three millisecond digits.
pub open spec fn is_timestamp_block(s: Seq<char>) -> bool {
    &&& s.len() == 24
    &&& s[0] == '-'
    &&& (s[1] == '1' || s[1] == '2')
    &&& is_digit(s[2])
    &&& is_digit(s[3])
    &&& is_digit(s[4])
    &&& s[5] == '-'
    &&& is_low_digit(s[6])
    &&& is_digit(s[7])
    &&& s[8] == '-'
    &&& is_low_digit(s[9])
    &&& is_digit(s[10])
    &&& s[11] == '-'
    &&& is_low_digit(s[12])
    &&& is_digit(s[13])
    &&& s[14] == '-'
    &&& is_low_digit(s[15])
    &&& is_digit(s[16])
    &&& s[17] == '-'
    &&& is_low_digit(s[18])
    &&& is_digit(s[19])
    &&& s[20] == '-'
    &&& is_digit(s[21])
    &&& is_digit(s[22])
    &&& is_digit(s[23])
}

fn is_digit_exec(c: char) -> (r: bool)
    ensures
        r == is_digit(c),
{
    let v = c as u32;
    48 <= v && v <= 57
}

fn is_low_digit_exec(c: char) -> (r: bool)
    ensures
        r == is_low_digit(c),
{
    let v = c as u32;
    48 <= v && v <= 53
}

/// Checks a dash-and-two-digit group `-XY` with X at most 5, at `at`.
fn check_pair_at(s: &str, at: usize) -> (r: bool)
    requires
        at + 3 <= s@.len() <= usize::MAX,
    ensures
        r == (s@[at as int] == '-' && is_low_digit(s@[at as int + 1]) && is_digit(
            s@[at as int + 2],
        )),
{
    s.get_char(at) == '-' && is_low_digit_exec(s.get_char(at + 1)) && is_digit_exec(
        s.get_char(at + 2),
    )
}

/// Checks the timestamp block of a candidate entry at offset `at`.
fn check_timestamp_block(s: &str, at: usize) -> (r: bool)
    requires
        at + 24 <= s@.len() <= usize::MAX,
    ensures
        r == is_timestamp_block(s@.subrange(at as int, at as int + 24)),
{
    let ghost b = s@.subrange(at as int, at as int + 24);
    proof {
        assert(forall|k: int| 0 <= k < 24 ==> b[k] == s@[at + k]);
    }
    let y = s.get_char(at + 1);
    let r = s.get_char(at) == '-' && (y == '1' || y == '2') && is_digit_exec(s.get_char(at + 2))
        && is_digit_exec(s.get_char(at + 3)) && is_digit_exec(s.get_char(at + 4)) && check_pair_at(
        s,
        at + 5,
    ) && check_pair_at(s, at + 8) && check_pair_at(s, at + 11) && check_pair_at(s, at + 14)
        && check_pair_at(s, at + 17) && s.get_char(at + 20) == '-' && is_digit_exec(
        s.get_char(at + 21),
    ) && is_digit_exec(s.get_char(at + 22)) && is_digit_exec(s.get_char(at + 23));
    r
}

/// Compares `pat` against the characters of `s` starting at `at`.
fn substr_eq_at(s: &str, at: usize, pat: &str) -> (r: bool)
    requires
        at + pat@.len() <= s@.len() <= usize::MAX,
    ensures
        r == (s@.subrange(at as int, at as int + pat@.len() as int) == pat@),
{
    let plen = pat.unicode_len();
    let sub = Ghost(s@.subrange(at as int, at as int + pat@.len() as int));
    let mut i: usize = 0;
    while i < plen
        invariant
            i <= plen,
            plen == pat@.len(),
            at + plen <= s@.len() <= usize::MAX,
            sub@ == s@.subrange(at as int, at as int + pat@.len() as int),
            forall|k: int| 0 <= k < i ==> sub@[k] == pat@[k],
        decreases plen - i,
    {
        proof {
            assert(sub@[i as int] == s@[at + i]);
        }
        if s.get_char(at + i) != pat.get_char(i) {
            proof {
                assert(sub@[i as int] != pat@[i as int]);
            }
            return false;
        }
        i = i + 1;
    }
    proof {
        assert(sub@ =~= pat@);
    }
    true
}

/// Whether a directory entry is a rotated form of the active file, and if
/// so, the base name under which retention tracks it: the entry itself, or
/// the entry stripped of a trailing compression suffix.
pub open spec fn spec_match_rotated_entry(
    n: Seq<char>,
    stem: Seq<char>,
    ext: Seq<char>,
) -> Option<Seq<char>> {
    let p = point_index(n);
    if n.len() >= stem.len() && n.subrange(0, stem.len() as int) == stem && p - stem.len() >= 24
        && is_timestamp_block(n.subrange(stem.len() as int, stem.len() as int + 24)) {
        if n.len() - p == ext.len() && n.subrange(p, n.len() as int) == ext {
            Some(n)
        } else if n.len() - p == 3 && n.subrange(p, n.len() as int) == seq!['.', 'x', 'z']
            && p >= ext.len() && n.subrange(p - ext.len(), p) == ext {
            Some(n.take(p))
        } else {
            None
        }
    } else {
        None
    }
}

/// Decides `spec_match_rotated_entry` on a directory entry.
pub fn match_rotated_entry(name: &str, stem: &str, ext: &str) -> (r: Option<String>)
    ensures
        match spec_match_rotated_entry(name@, stem@, ext@) {
            Some(s) => r matches Some(v) && v@ == s,
            None => r is None,
        },
{
    let nlen = name.unicode_len();
    let slen = stem.unicode_len();
    let elen = ext.unicode_len();
    if nlen < slen {
        return None;
    }
    if !substr_eq_at(name, 0, stem) {
        proof {
            assert(name@.subrange(0, stem@.len() as int) != stem@);
        }
        return None;
    }
    let p = find_point_index(name);
    if p < slen || p - slen < 24 {
        return None;
    }
    if !check_timestamp_block(name, slen) {
        return None;
    }
    if nlen - p == elen && substr_eq_at(name, p, ext) {
        return Some(String::from_str(name));
    }
    proof {
        reveal_strlit(".xz");
        assert(".xz"@ =~= seq!['.', 'x', 'z']);
    }
    if nlen - p == 3 && substr_eq_at(name, p, ".xz") && p >= elen && substr_eq_at(
        name,
        p - elen,
        ext,
    ) {
        proof {
            reveal_strlit(".xz");
            assert(".xz"@ =~= seq!['.', 'x', 'z']);
        }
        let base = name.substring_char(0, p);
        proof {
            assert(base@ =~= name@.take(p as int));
        }
        return Some(String::from_str(base));
    }
    proof {
        reveal_strlit(".xz");
        assert(".xz"@ =~= seq!['.', 'x', 'z']);
    }
    None
}

/// The views of a list of owned strings.
pub open spec fn views(s: Seq<String>) -> Seq<Seq<char>> {
    s.map_values(|x: String| x@)
}

/// The base names that a directory listing yields, in listing order.
pub open spec fn spec_recovered_names(
    listing: Seq<Seq<char>>,
    stem: Seq<char>,
    ext: Seq<char>,
) -> Seq<Seq<char>>
    decreases listing.len(),
{
    if listing.len() == 0 {
        Seq::empty()
    } else {
        let rest = spec_recovered_names(listing.drop_last(), stem, ext);
        match spec_match_rotated_entry(listing.last(), stem, ext) {
            Some(s) => rest.push(s),
            None => rest,
        }
    }
}

/// Pairwise sortedness under the naming order.
pub open spec fn lex_sorted(s: Seq<Seq<char>>) -> bool {
    forall|i: int, j: int| 0 <= i < j < s.len() ==> lex_leq(#[trigger] s[i], #[trigger] s[j])
}

/// Sorts a list of names lexicographically, by insertion.
fn sort_names(v: &mut Vec<String>)
    ensures
        views(final(v)@).to_multiset() == views(old(v)@).to_multiset(),
        lex_sorted(views(final(v)@)),
{
    if v.len() <= 1 {
        return ;
    }
    let mut i: usize = 1;
    while i < v.len()
        invariant
            1 <= i <= v@.len(),
            views(v@).to_multiset() == views(old(v)@).to_multiset(),
            lex_sorted(views(v@).take(i as int)),
        decreases v@.len() - i,
    {
        let ghost pre = v@;
        let ghost prev = views(pre);
        proof {
            assert(prev.len() == pre.len());
            assert(forall|k: int| 0 <= k < pre.len() ==> prev[k] == #[trigger] pre[k]@);
        }
        let mut j: usize = i;
        loop
            invariant
                j <= i < v.len(),
                v@ == pre,
                prev == views(pre),
                prev.len() == pre.len(),
                forall|k: int| 0 <= k < pre.len() ==> prev[k] == #[trigger] pre[k]@,
                forall|k: int| j <= k < i ==> lex_lt(prev[i as int], #[trigger] prev[k]),
            ensures
                j <= i,
                v@ == pre,
                forall|k: int| j <= k < i ==> lex_lt(prev[i as int], #[trigger] prev[k]),
                j > 0 ==> !lex_lt(prev[i as int], prev[j - 1]),
            decreases j,
        {
            if j == 0 {
                break ;
            }
            if !lex_lt_exec(v[i].as_str(), v[j - 1].as_str()) {
                break ;
            }
            j = j - 1;
        }
        let ghost jj = j as int;
        let ghost ii = i as int;
        let x = v.remove(i);
        v.insert(j, x);
        proof {
            broadcast use to_multiset_insert, to_multiset_remove;

            let xv = x@;
            assert(xv == prev[ii]);
            assert(views(pre.remove(ii)) =~= prev.remove(ii));
            assert(views(v@) =~= prev.remove(ii).insert(jj, xv));
            let m0 = prev.to_multiset();
            assert(prev.remove(ii).to_multiset() == m0.remove(xv));
            assert(views(v@).to_multiset() == m0.remove(xv).insert(xv));
            broadcast use vstd::multiset::group_multiset_axioms;
            broadcast use vstd::seq_lib::group_to_multiset_ensures;
            assert(prev.contains(xv)) by {
                assert(0 <= ii < prev.len() && prev[ii] == xv);
            }
            assert(m0.count(xv) > 0);
            assert(m0.remove(xv).insert(xv) =~= m0);
            let cur = views(v@);
            assert(forall|k: int| 0 <= k < jj ==> cur[k] == prev[k]);
            assert(cur[jj] == xv);
            assert(forall|k: int| jj < k <= ii ==> cur[k] == prev[k - 1]);
            // everything left of the insertion point is at most the inserted name
            assert forall|k: int| 0 <= k < jj implies lex_leq(#[trigger] prev[k], xv) by {
                lemma_lex_trichotomy(xv, prev[jj - 1]);
                assert(lex_leq(prev[jj - 1], xv));
                if k < jj - 1 {
                    assert(lex_leq(prev[k], prev[jj - 1]));
                    lemma_lex_leq_transitive(prev[k], prev[jj - 1], xv);
                }
            }
            assert forall|p: int, q: int| 0 <= p < q < ii + 1 implies lex_leq(
                #[trigger] cur[p],
                #[trigger] cur[q],
            ) by {
                if q < jj {
                } else if p < jj && q == jj {
                    assert(lex_leq(prev[p], xv));
                } else if p < jj && q > jj {
                    assert(lex_leq(prev[p], xv));
                    assert(lex_lt(xv, prev[q - 1]));
                    lemma_lex_leq_transitive(prev[p], xv, prev[q - 1]);
                } else if p == jj {
                    assert(lex_lt(xv, prev[q - 1]));
                } else {
                    assert(cur[p] == prev[p - 1] && cur[q] == prev[q - 1]);
                }
            }
            assert(lex_sorted(cur.take(ii + 1)));
        }
        i = i + 1;
    }
    proof {
        assert(views(v@).take(v@.len() as int) =~= views(v@));
    }
}

/// Scans a directory listing for rotated forms of the active file and
/// returns their base names sorted in rotation order: the recovered
/// retention sequence.
pub fn recover_rotated_names(listing: &Vec<String>, stem: &str, ext: &str) -> (r: Vec<String>)
    ensures
        views(r@).to_multiset() == spec_recovered_names(views(listing@), stem@, ext@).to_multiset(),
        lex_sorted(views(r@)),
{
    let mut out: Vec<String> = Vec::new();
    let mut i: usize = 0;
    proof {
        assert(views(listing@).take(0) =~= Seq::<Seq<char>>::empty());
        assert(views(out@) =~= Seq::<Seq<char>>::empty());
    }
    while i < listing.len()
        invariant
            i <= listing@.len(),
            views(out@) == spec_recovered_names(views(listing@).take(i as int), stem@, ext@),
        decreases listing@.len() - i,
    {
        let ghost before = views(out@);
        match match_rotated_entry(listing[i].as_str(), stem, ext) {
            Some(base) => {
                out.push(base);
            },
            None => {},
        }
        proof {
            assert(views(listing@).take(i + 1).drop_last() =~= views(listing@).take(i as int));
            assert(views(listing@).take(i + 1).last() == listing@[i as int]@);
            match spec_match_rotated_entry(listing@[i as int]@, stem@, ext@) {
                Some(s) => {
                    assert(views(out@) =~= before.push(s));
                },
                None => {
                    assert(views(out@) =~= before);
                },
            }
        }
        i = i + 1;
    }
    proof {
        assert(views(listing@).take(listing@.len() as int) =~= views(listing@));
    }
    sort_names(&mut out);
    out
}

/// A sequence has no dot exactly when `last_dot` finds none.
proof fn lemma_last_dot_none(s: Seq<char>)
    ensures
        (last_dot(s) == -1) <==> (forall|i: int| 0 <= i < s.len() ==> s[i] != '.'),
    decreases s.len(),
{
    if s.len() != 0 {
        lemma_last_dot_none(s.drop_last());
        if s[s.len() - 1] != '.' {
            if last_dot(s) == -1 {
                assert forall|i: int| 0 <= i < s.len() implies s[i] != '.' by {
                    if i < s.len() - 1 {
                        assert(s[i] == s.drop_last()[i]);
                    }
                }
            } else {
                let w = choose|i: int| 0 <= i < s.drop_last().len() && s.drop_last()[i] == '.';
                assert(s[w] == '.');
            }
        }
    }
}

/// No dot stands after the last one.
proof fn lemma_last_dot_after(s: Seq<char>)
    ensures
        forall|i: int| last_dot(s) < i < s.len() ==> s[i] != '.',
    decreases s.len(),
{
    if s.len() != 0 && s[s.len() - 1] != '.' {
        lemma_last_dot_after(s.drop_last());
        lemma_last_dot_range(s.drop_last());
        assert forall|i: int| last_dot(s) < i < s.len() implies s[i] != '.' by {
            if i < s.len() - 1 {
                assert(s[i] == s.drop_last()[i]);
            }
        }
    }
}

/// The last dot of a concatenation: the second part's last dot, shifted,
/// or the first part's when the second has none.
proof fn lemma_last_dot_concat(x: Seq<char>, y: Seq<char>)
    ensures
        last_dot(x + y) == (if last_dot(y) >= 0 {
            x.len() + last_dot(y)
        } else {
            last_dot(x)
        }),
    decreases y.len(),
{
    if y.len() == 0 {
        assert(x + y =~= x);
    } else {
        assert((x + y).len() == x.len() + y.len());
        assert((x + y)[x.len() + y.len() - 1] == y[y.len() - 1]);
        if y[y.len() - 1] == '.' {
        } else {
            assert((x + y).drop_last() =~= x + y.drop_last());
            lemma_last_dot_concat(x, y.drop_last());
        }
    }
}

/// A valid instant's timestamp block is well-formed for the scan.
proof fn lemma_block_well_formed(ts: Timestamp)
    requires
        ts.valid(),
    ensures
        is_timestamp_block(timestamp_block(ts)),
{
    let y = ts.year as int;
    let mo = ts.month as int;
    let d = ts.day as int;
    let h = ts.hour as int;
    let mi = ts.minute as int;
    let sec = ts.second as int;
    let ms = ts.millisecond as int;
    assert(timestamp_block(ts) =~= seq![
        '-',
        digit_char(y / 1000),
        digit_char((y / 100) % 10),
        digit_char((y / 10) % 10),
        digit_char(y % 10),
        '-',
        digit_char(mo / 10),
        digit_char(mo % 10),
        '-',
        digit_char(d / 10),
        digit_char(d % 10),
        '-',
        digit_char(h / 10),
        digit_char(h % 10),
        '-',
        digit_char(mi / 10),
        digit_char(mi % 10),
        '-',
        digit_char(sec / 10),
        digit_char(sec % 10),
        '-',
        digit_char(ms / 100),
        digit_char((ms / 10) % 10),
        digit_char(ms % 10),
    ]);
    assert(1 <= y / 1000 <= 2);
    assert(digit_char(1) == '1' && digit_char(2) == '2');
    assert(mo / 10 <= 1 && d / 10 <= 3 && h / 10 <= 2 && mi / 10 <= 5 && sec / 10 <= 5);
}

/// Nothing in a well-formed timestamp block is a dot.
proof fn lemma_block_no_dot(b: Seq<char>)
    requires
        is_timestamp_block(b),
    ensures
        forall|i: int| 0 <= i < b.len() ==> b[i] != '.',
{
    assert forall|i: int| 0 <= i < b.len() implies b[i] != '.' by {
        assert(b.len() == 24);
        assert(('.' as int) == 46 && ('-' as int) == 45);
    }
}

/// Recovery is coherent with naming: the scan recognizes every name a
/// rotation of the same active file generates, and recovers it under
/// exactly that name — so retention counting survives a restart.
pub proof fn lemma_generated_name_is_recovered(file_name: Seq<char>, ts: Timestamp)
    requires
        ts.valid(),
    ensures
        ({
            let p = point_index(file_name);
            let stem = file_name.take(p);
            let ext = file_name.skip(p);
            spec_match_rotated_entry(spec_rotated_name(stem, ts, ext), stem, ext) == Some(
                spec_rotated_name(stem, ts, ext),
            )
        }),
{
    lemma_point_index_range(file_name);
    let p0 = point_index(file_name);
    let stem = file_name.take(p0);
    let ext = file_name.skip(p0);
    let block = timestamp_block(ts);
    let n = spec_rotated_name(stem, ts, ext);
    lemma_block_well_formed(ts);
    lemma_block_no_dot(block);
    assert(n =~= (stem + block) + ext);
    lemma_last_dot_concat(stem + block, ext);
    lemma_last_dot_range(file_name);
    if ext.len() == 0 {
        // the active file has no extension, hence no dot at all
        assert(last_dot(file_name) == -1);
        lemma_last_dot_none(file_name);
        assert(forall|i: int| 0 <= i < stem.len() ==> stem[i] == #[trigger] file_name[i]);
        lemma_last_dot_none(stem);
        lemma_last_dot_concat(stem, block);
        lemma_last_dot_none(block);
        assert(last_dot(ext) == -1);
        assert(last_dot(n) == -1);
        assert(point_index(n) == n.len());
    } else {
        // the extension begins at the name's last dot and has no other
        assert(last_dot(file_name) == p0);
        assert(ext[0] == file_name[p0]);
        assert(ext[0] == '.');
        lemma_last_dot_after(file_name);
        assert(forall|i: int| 0 <= i < ext.len() ==> ext[i] == #[trigger] file_name[p0 + i]);
        assert(forall|i: int| 1 <= i < ext.len() ==> ext[i] != '.');
        assert(ext =~= ext.take(1) + ext.skip(1));
        lemma_last_dot_none(ext.skip(1));
        lemma_last_dot_concat(ext.take(1), ext.skip(1));
        assert(ext.take(1)[0] == '.');
        assert(last_dot(ext.take(1)) == 0);
        assert(last_dot(ext) == 0);
        assert(last_dot(n) == stem.len() + block.len());
        assert(point_index(n) == stem.len() + 24);
    }
    let p = point_index(n);
    assert(p == stem.len() + 24);
    assert(n.subrange(0, stem.len() as int) =~= stem);
    assert(n.subrange(stem.len() as int, stem.len() as int + 24) =~= block);
    assert(n.len() - p == ext.len());
    assert(n.subrange(p, n.len() as int) =~= ext);
}

} // verus!
