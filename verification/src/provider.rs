//! Reading what the process-tree provider shows: the line formats of the
//! service manager's property listing and of the cgroup event and counter
//! files, the confinement of a control-group name below the cgroup root,
//! and the facts an observation establishes from those readings.

use vstd::prelude::*;

use crate::process::{is_white_space, white_space};
use crate::process_runtime::LifecycleFacts;
use crate::text::push_char;

verus! {

/// A line as `str::lines` yields it: the text before a `'\n'`, without one
/// trailing `'\r'`.
pub open spec fn strip_cr(line: Seq<char>) -> Seq<char> {
    if line.len() > 0 && line.last() == '\r' {
        line.drop_last()
    } else {
        line
    }
}

/// Reading `s` from the left: the lines ended by a `'\n'` so far, and the
/// text after the last one.
pub open spec fn lines_fold(s: Seq<char>) -> (Seq<Seq<char>>, Seq<char>)
    decreases s.len(),
{
    if s.len() == 0 {
        (Seq::empty(), Seq::empty())
    } else {
        let (done, current) = lines_fold(s.drop_last());
        if s.last() == '\n' {
            (done.push(strip_cr(current)), Seq::empty())
        } else {
            (done, current.push(s.last()))
        }
    }
}

/// The lines of `s`: every `'\n'` ends a line (one `'\r'` before it is
/// dropped), and text after the last `'\n'` is a last line of its own.
pub open spec fn text_lines(s: Seq<char>) -> Seq<Seq<char>> {
    let (done, current) = lines_fold(s);
    if current.len() == 0 {
        done
    } else {
        done.push(current)
    }
}

/// The views of a list of strings.
pub open spec fn string_views(v: Seq<String>) -> Seq<Seq<char>> {
    v.map_values(|s: String| s@)
}

fn strip_cr_in_place(line: String) -> (r: String)
    ensures
        r@ == strip_cr(line@),
{
    let n = line.as_str().unicode_len();
    if n > 0 && line.as_str().get_char(n - 1) == '\r' {
        let mut out = String::new();
        let mut i: usize = 0;
        while i < n - 1
            invariant
                n == line@.len(),
                i <= n - 1,
                out@ == line@.take(i as int),
            decreases n - 1 - i,
        {
            let c = line.as_str().get_char(i);
            push_char(&mut out, c);
            assert(line@.take(i + 1) =~= line@.take(i as int).push(c));
            i = i + 1;
        }
        assert(line@.drop_last() =~= line@.take(n - 1));
        out
    } else {
        line
    }
}

/// The lines of `text`, as `str::lines` splits them.
pub fn split_lines(text: &str) -> (r: Vec<String>)
    ensures
        string_views(r@) == text_lines(text@),
{
    let n = text.unicode_len();
    let mut done: Vec<String> = Vec::new();
    let mut current = String::new();
    let mut i: usize = 0;
    while i < n
        invariant
            n == text@.len(),
            i <= n,
            (string_views(done@), current@) == lines_fold(text@.take(i as int)),
        decreases n - i,
    {
        let c = text.get_char(i);
        proof {
            assert(text@.take(i + 1).drop_last() =~= text@.take(i as int));
            assert(text@.take(i + 1).last() == c);
        }
        if c == '\n' {
            let line = strip_cr_in_place(current);
            let ghost before = string_views(done@);
            done.push(line);
            assert(string_views(done@) =~= before.push(line@));
            current = String::new();
        } else {
            push_char(&mut current, c);
        }
        i = i + 1;
    }
    assert(text@.take(n as int) =~= text@);
    if current.as_str().unicode_len() > 0 {
        let ghost before = string_views(done@);
        let ghost last = current@;
        done.push(current);
        assert(string_views(done@) =~= before.push(last));
    }
    done
}


/// `i` is the first position of `c` in `s`.
pub open spec fn first_at(s: Seq<char>, c: char, i: int) -> bool {
    0 <= i < s.len() && s[i] == c && forall|j: int| 0 <= j < i ==> s[j] != c
}

/// `s` split at its first `c`, as `str::split_once` splits it.
pub open spec fn split_once_at(s: Seq<char>, c: char) -> Option<(Seq<char>, Seq<char>)> {
    if exists|i: int| first_at(s, c, i) {
        let i = choose|i: int| first_at(s, c, i);
        Some((s.take(i), s.skip(i + 1)))
    } else {
        None
    }
}

fn split_once_char(s: &str, c: char) -> (r: Option<(String, String)>)
    ensures
        match r {
            Some((a, b)) => split_once_at(s@, c) == Some((a@, b@)),
            None => split_once_at(s@, c) is None,
        },
{
    let n = s.unicode_len();
    let mut i: usize = 0;
    while i < n
        invariant
            n == s@.len(),
            i <= n,
            forall|j: int| 0 <= j < i ==> s@[j] != c,
        decreases n - i,
    {
        if s.get_char(i) == c {
            proof {
                assert(first_at(s@, c, i as int));
                let k = choose|k: int| first_at(s@, c, k);
                assert(k == i) by {
                    if k < i {
                        assert(s@[k] != c);
                    } else if k > i {
                        assert(s@[i as int] != c);
                    }
                }
            }
            let before = s.substring_char(0, i).to_owned();
            let after = s.substring_char(i + 1, n).to_owned();
            assert(s@.subrange(0, i as int) =~= s@.take(i as int));
            assert(s@.subrange(i + 1, n as int) =~= s@.skip(i + 1));
            return Some((before, after));
        }
        i = i + 1;
    }
    None
}

/// An ASCII decimal digit.
pub open spec fn is_digit(c: char) -> bool {
    '0' <= c && c <= '9'
}

/// Every character is a decimal digit.
pub open spec fn all_digits(d: Seq<char>) -> bool {
    forall|i: int| 0 <= i < d.len() ==> is_digit(#[trigger] d[i])
}

/// The number a run of decimal digits writes.
pub open spec fn digits_value(d: Seq<char>) -> nat
    decreases d.len(),
{
    if d.len() == 0 {
        0
    } else {
        digits_value(d.drop_last()) * 10 + ((d.last() as int) - ('0' as int)) as nat
    }
}

/// The unsigned 64-bit number `s` writes, as `u64::from_str` reads it: an
/// optional `+`, then one or more decimal digits of a value that fits.
pub open spec fn u64_text(s: Seq<char>) -> Option<u64> {
    let d = if s.len() > 0 && s[0] == '+' { s.drop_first() } else { s };
    if d.len() == 0 || !all_digits(d) {
        None
    } else if digits_value(d) > u64::MAX {
        None
    } else {
        Some(digits_value(d) as u64)
    }
}

proof fn lemma_digits_value_grows(d: Seq<char>, i: int)
    requires
        0 <= i <= d.len(),
        forall|j: int| 0 <= j < d.len() ==> is_digit(d[j]),
    ensures
        digits_value(d.take(i)) <= digits_value(d),
    decreases d.len() - i,
{
    if i < d.len() {
        lemma_digits_value_grows(d, i + 1);
        assert(d.take(i + 1).drop_last() =~= d.take(i));
        assert(is_digit(d.take(i + 1).last()));
    } else {
        assert(d.take(i) =~= d);
    }
}

/// `text` read as an unsigned 64-bit number.
pub fn parse_u64(text: &str) -> (r: Option<u64>)
    ensures
        r == u64_text(text@),
{
    let n = text.unicode_len();
    let start: usize = if n > 0 && text.get_char(0) == '+' { 1 } else { 0 };
    let ghost d = if text@.len() > 0 && text@[0] == '+' { text@.drop_first() } else { text@ };
    assert(d =~= text@.skip(start as int));
    if start == n {
        return None;
    }
    let mut i: usize = start;
    while i < n
        invariant
            n == text@.len(),
            start <= i <= n,
            d == text@.skip(start as int),
            d == (if text@.len() > 0 && text@[0] == '+' { text@.drop_first() } else { text@ }),
            forall|j: int| start <= j < i ==> is_digit(text@[j]),
        decreases n - i,
    {
        let c = text.get_char(i);
        if !('0' <= c && c <= '9') {
            assert(d[i - start] == text@[i as int]);
            assert(!is_digit(d[i - start]));
            return None;
        }
        i = i + 1;
    }
    assert(forall|j: int| 0 <= j < d.len() ==> is_digit(d[j]));
    let mut value: u64 = 0;
    let mut k: usize = start;
    while k < n
        invariant
            n == text@.len(),
            start <= k <= n,
            d == text@.skip(start as int),
            d == (if text@.len() > 0 && text@[0] == '+' { text@.drop_first() } else { text@ }),
            forall|j: int| 0 <= j < d.len() ==> is_digit(d[j]),
            value as nat == digits_value(d.take(k - start)),
        decreases n - k,
    {
        let c = text.get_char(k);
        assert(d[k - start] == c);
        assert(is_digit(c));
        let digit = (c as u32 - '0' as u32) as u64;
        proof {
            assert(d.take(k - start + 1).drop_last() =~= d.take(k - start));
            assert(d.take(k - start + 1).last() == c);
        }
        if value > (u64::MAX - digit) / 10 {
            proof {
                assert(value * 10 + digit > u64::MAX) by (nonlinear_arith)
                    requires
                        value > (u64::MAX - digit) / 10,
                        digit <= 9,
                ;
                lemma_digits_value_grows(d, k - start + 1);
            }
            return None;
        }
        proof {
            assert(value * 10 + digit <= u64::MAX) by (nonlinear_arith)
                requires
                    value <= (u64::MAX - digit) / 10,
                    digit <= 9,
            ;
        }
        value = value * 10 + digit;
        k = k + 1;
    }
    assert(d.take(n - start) =~= d);
    Some(value)
}


/// A `key value` line of a cgroup event file: the text before the first
/// space, and the number after it.
pub open spec fn counter_line(line: Seq<char>) -> Option<(Seq<char>, u64)> {
    match split_once_at(line, ' ') {
        Some((key, value)) => match u64_text(value) {
            Some(n) => Some((key, n)),
            None => None,
        },
        None => None,
    }
}

/// The counters of the lines that are `key value` lines, in order.
pub open spec fn counter_pairs(lines: Seq<Seq<char>>) -> Seq<(Seq<char>, u64)>
    decreases lines.len(),
{
    if lines.len() == 0 {
        Seq::empty()
    } else {
        let rest = counter_pairs(lines.drop_last());
        match counter_line(lines.last()) {
            Some(pair) => rest.push(pair),
            None => rest,
        }
    }
}

/// A `key=value` line of a property listing: the text before the first
/// `=`, and the text after it.
pub open spec fn property_line(line: Seq<char>) -> Option<(Seq<char>, Seq<char>)> {
    split_once_at(line, '=')
}

/// The properties of the lines that are `key=value` lines, in order.
pub open spec fn property_pairs(lines: Seq<Seq<char>>) -> Seq<(Seq<char>, Seq<char>)>
    decreases lines.len(),
{
    if lines.len() == 0 {
        Seq::empty()
    } else {
        let rest = property_pairs(lines.drop_last());
        match property_line(lines.last()) {
            Some(pair) => rest.push(pair),
            None => rest,
        }
    }
}

pub open spec fn counter_views(v: Seq<(String, u64)>) -> Seq<(Seq<char>, u64)> {
    v.map_values(|p: (String, u64)| (p.0@, p.1))
}

pub open spec fn property_views(v: Seq<(String, String)>) -> Seq<(Seq<char>, Seq<char>)> {
    v.map_values(|p: (String, String)| (p.0@, p.1@))
}

/// The counters a cgroup event file lists, one `key value` line each;
/// other lines are skipped.
pub fn counters(text: &str) -> (r: Vec<(String, u64)>)
    ensures
        counter_views(r@) == counter_pairs(text_lines(text@)),
{
    let lines = split_lines(text);
    let ghost lv = string_views(lines@);
    let mut out: Vec<(String, u64)> = Vec::new();
    let mut i: usize = 0;
    while i < lines.len()
        invariant
            i <= lines@.len(),
            lv == string_views(lines@),
            counter_views(out@) == counter_pairs(lv.take(i as int)),
        decreases lines@.len() - i,
    {
        proof {
            assert(lv.take(i + 1).drop_last() =~= lv.take(i as int));
            assert(lv.take(i + 1).last() == lines@[i as int]@);
        }
        match split_once_char(lines[i].as_str(), ' ') {
            Some((key, value)) => {
                match parse_u64(value.as_str()) {
                    Some(n) => {
                        let ghost before = counter_views(out@);
                        let ghost kv = key@;
                        out.push((key, n));
                        assert(counter_views(out@) =~= before.push((kv, n)));
                    },
                    None => {},
                }
            },
            None => {},
        }
        i = i + 1;
    }
    assert(lv.take(lines@.len() as int) =~= lv);
    out
}

/// The properties a listing shows, one `key=value` line each; other lines
/// are skipped.
pub fn properties(text: &str) -> (r: Vec<(String, String)>)
    ensures
        property_views(r@) == property_pairs(text_lines(text@)),
{
    let lines = split_lines(text);
    let ghost lv = string_views(lines@);
    let mut out: Vec<(String, String)> = Vec::new();
    let mut i: usize = 0;
    while i < lines.len()
        invariant
            i <= lines@.len(),
            lv == string_views(lines@),
            property_views(out@) == property_pairs(lv.take(i as int)),
        decreases lines@.len() - i,
    {
        proof {
            assert(lv.take(i + 1).drop_last() =~= lv.take(i as int));
            assert(lv.take(i + 1).last() == lines@[i as int]@);
        }
        match split_once_char(lines[i].as_str(), '=') {
            Some((key, value)) => {
                let ghost before = property_views(out@);
                let ghost kv = (key@, value@);
                out.push((key, value));
                assert(property_views(out@) =~= before.push(kv));
            },
            None => {},
        }
        i = i + 1;
    }
    assert(lv.take(lines@.len() as int) =~= lv);
    out
}

/// The value last listed for `key` (a later listing overrides an earlier one).
pub open spec fn last_counter(pairs: Seq<(Seq<char>, u64)>, key: Seq<char>) -> Option<u64>
    decreases pairs.len(),
{
    if pairs.len() == 0 {
        None
    } else if pairs.last().0 == key {
        Some(pairs.last().1)
    } else {
        last_counter(pairs.drop_last(), key)
    }
}

/// The value last listed for `key` (a later listing overrides an earlier one).
pub open spec fn last_property(pairs: Seq<(Seq<char>, Seq<char>)>, key: Seq<char>) -> Option<Seq<char>>
    decreases pairs.len(),
{
    if pairs.len() == 0 {
        None
    } else if pairs.last().0 == key {
        Some(pairs.last().1)
    } else {
        last_property(pairs.drop_last(), key)
    }
}

/// The counter last listed for `key`.
pub fn counter(pairs: &Vec<(String, u64)>, key: &str) -> (r: Option<u64>)
    ensures
        r == last_counter(counter_views(pairs@), key@),
{
    let ghost pv = counter_views(pairs@);
    let mut k: usize = pairs.len();
    assert(pv.take(k as int) =~= pv);
    while k > 0
        invariant
            k <= pairs@.len(),
            pv == counter_views(pairs@),
            last_counter(pv, key@) == last_counter(pv.take(k as int), key@),
        decreases k,
    {
        proof {
            assert(pv.take(k as int).drop_last() =~= pv.take(k - 1));
            assert(pv.take(k as int).last() == (pairs@[k - 1].0@, pairs@[k - 1].1));
        }
        if crate::text::text_eq(pairs[k - 1].0.as_str(), key) {
            return Some(pairs[k - 1].1);
        }
        k = k - 1;
    }
    None
}

/// The property last listed for `key`.
pub fn property<'a>(pairs: &'a Vec<(String, String)>, key: &str) -> (r: Option<&'a String>)
    ensures
        match r {
            Some(v) => last_property(property_views(pairs@), key@) == Some(v@),
            None => last_property(property_views(pairs@), key@) is None,
        },
{
    let ghost pv = property_views(pairs@);
    let mut k: usize = pairs.len();
    assert(pv.take(k as int) =~= pv);
    while k > 0
        invariant
            k <= pairs@.len(),
            pv == property_views(pairs@),
            last_property(pv, key@) == last_property(pv.take(k as int), key@),
        decreases k,
    {
        proof {
            assert(pv.take(k as int).drop_last() =~= pv.take(k - 1));
            assert(pv.take(k as int).last() == (pairs@[k - 1].0@, pairs@[k - 1].1@));
        }
        if crate::text::text_eq(pairs[k - 1].0.as_str(), key) {
            return Some(&pairs[k - 1].1);
        }
        k = k - 1;
    }
    None
}


/// `a..b` is what `str::trim` keeps of `s`: no white space before `a` or
/// from `b` on, none at either end of what is kept, and an empty result at 0
/// when `s` is all white space.
pub open spec fn trim_bounds(s: Seq<char>, a: int, b: int) -> bool {
    &&& 0 <= a <= b <= s.len()
    &&& forall|j: int| 0 <= j < a ==> white_space(#[trigger] s[j])
    &&& forall|j: int| b <= j < s.len() ==> white_space(#[trigger] s[j])
    &&& a < b ==> !white_space(s[a]) && !white_space(s[b - 1])
    &&& a == b ==> a == 0
}

/// `s` without white space at either end, as `str::trim` leaves it.
pub open spec fn trimmed(s: Seq<char>) -> Seq<char> {
    let (a, b) = choose|a: int, b: int| trim_bounds(s, a, b);
    s.subrange(a, b)
}

proof fn lemma_trim_bounds_unique(s: Seq<char>, a: int, b: int, c: int, d: int)
    requires
        trim_bounds(s, a, b),
        trim_bounds(s, c, d),
    ensures
        a == c && b == d,
{
    if a < b && c < d {
        if c < a {
            assert(white_space(s[c]));
        }
        if a < c {
            assert(white_space(s[a]));
        }
        if d < b {
            assert(white_space(s[b - 1]));
        }
        if b < d {
            assert(white_space(s[d - 1]));
        }
    } else if a < b {
        assert(white_space(s[a]));
    } else if c < d {
        assert(white_space(s[c]));
    }
}

fn trim_text(s: &str) -> (r: String)
    ensures
        r@ == trimmed(s@),
{
    let n = s.unicode_len();
    let mut a: usize = 0;
    while a < n && is_white_space(s.get_char(a))
        invariant
            n == s@.len(),
            a <= n,
            forall|j: int| 0 <= j < a ==> white_space(#[trigger] s@[j]),
        decreases n - a,
    {
        a = a + 1;
    }
    if a == n {
        proof {
            assert(trim_bounds(s@, 0, 0));
            let (x, y) = choose|x: int, y: int| trim_bounds(s@, x, y);
            lemma_trim_bounds_unique(s@, 0, 0, x, y);
            assert(s@.subrange(0, 0) =~= Seq::<char>::empty());
        }
        return String::new();
    }
    assert(!white_space(s@[a as int]));
    let mut b: usize = n;
    while b > a + 1 && is_white_space(s.get_char(b - 1))
        invariant
            n == s@.len(),
            a < n,
            a < b <= n,
            !white_space(s@[a as int]),
            forall|j: int| b <= j < n ==> white_space(#[trigger] s@[j]),
        decreases b,
    {
        b = b - 1;
    }
    proof {
        if b == a + 1 {
            assert(!white_space(s@[b - 1]));
        }
        assert(trim_bounds(s@, a as int, b as int));
        let (x, y) = choose|x: int, y: int| trim_bounds(s@, x, y);
        lemma_trim_bounds_unique(s@, a as int, b as int, x, y);
    }
    s.substring_char(a, b).to_owned()
}

/// A number file's value: the trimmed text read as an unsigned number.
pub open spec fn number_text(text: Option<Seq<char>>) -> Option<u64> {
    match text {
        Some(t) => u64_text(trimmed(t)),
        None => None,
    }
}

/// The number a counter file holds, if it could be read and parses.
pub fn read_number(text: Option<&str>) -> (r: Option<u64>)
    ensures
        r == number_text(
            match text {
                Some(t) => Some(t@),
                None => None,
            },
        ),
{
    match text {
        Some(t) => {
            let trimmed_text = trim_text(t);
            parse_u64(trimmed_text.as_str())
        },
        None => None,
    }
}


/// A `..` segment of a `/`-separated name starts at `i`.
pub open spec fn parent_segment_at(g: Seq<char>, i: int) -> bool {
    &&& 0 <= i
    &&& i + 2 <= g.len()
    &&& g[i] == '.'
    &&& g[i + 1] == '.'
    &&& (i == 0 || g[i - 1] == '/')
    &&& (i + 2 == g.len() || g[i + 2] == '/')
}

/// `g` starts with exactly `k` slashes.
pub open spec fn slash_run(g: Seq<char>, k: int) -> bool {
    0 <= k <= g.len() && (forall|j: int| 0 <= j < k ==> #[trigger] g[j] == '/') && (k == g.len() || g[k] != '/')
}

/// Where a control-group name lives below the cgroup root: only an absolute
/// name without a `..` segment has a place there, the root joined with the
/// name after its leading slashes.
pub open spec fn cgroup_path_of(g: Seq<char>) -> Option<Seq<char>> {
    if g.len() == 0 || g[0] != '/' || exists|i: int| parent_segment_at(g, i) {
        None
    } else {
        let k = choose|k: int| slash_run(g, k);
        Some("/sys/fs/cgroup/"@ + g.skip(k))
    }
}

/// The cgroup directory of a control-group name, confined below the cgroup
/// root.
pub fn cgroup_path(group: &str) -> (r: Option<String>)
    ensures
        match r {
            Some(path) => cgroup_path_of(group@) == Some(path@),
            None => cgroup_path_of(group@) is None,
        },
{
    let n = group.unicode_len();
    if n == 0 || group.get_char(0) != '/' {
        return None;
    }
    let mut i: usize = 0;
    while i < n - 1
        invariant
            n == group@.len(),
            n > 0,
            forall|j: int| 0 <= j < i ==> !#[trigger] parent_segment_at(group@, j),
        decreases n - i,
    {
        if group.get_char(i) == '.' && group.get_char(i + 1) == '.' && (i == 0 || group.get_char(i - 1) == '/') && (
        i + 2 == n || group.get_char(i + 2) == '/') {
            assert(parent_segment_at(group@, i as int));
            return None;
        }
        i = i + 1;
    }
    assert forall|j: int| !#[trigger] parent_segment_at(group@, j) by {
        if 0 <= j < i {
        } else if j >= i {
            assert(!(j + 2 <= group@.len()));
        }
    }
    let mut k: usize = 0;
    while k < n && group.get_char(k) == '/'
        invariant
            n == group@.len(),
            k <= n,
            forall|j: int| 0 <= j < k ==> #[trigger] group@[j] == '/',
        decreases n - k,
    {
        k = k + 1;
    }
    proof {
        assert(slash_run(group@, k as int));
        let c = choose|c: int| slash_run(group@, c);
        if c < k {
            assert(group@[c] == '/');
        } else if c > k {
            assert(group@[k as int] == '/');
        }
    }
    let mut path = String::from_str("/sys/fs/cgroup/");
    let rest = group.substring_char(k, n);
    let m = rest.unicode_len();
    let ghost base = path@;
    let mut q: usize = 0;
    while q < m
        invariant
            m == rest@.len(),
            q <= m,
            path@ == base + rest@.take(q as int),
        decreases m - q,
    {
        let c = rest.get_char(q);
        push_char(&mut path, c);
        assert(rest@.take(q + 1) =~= rest@.take(q as int).push(c));
        q = q + 1;
    }
    assert(rest@.take(m as int) =~= group@.skip(k as int));
    Some(path)
}

proof fn lemma_slash_run_exists(g: Seq<char>, n: int)
    requires
        0 <= n <= g.len(),
        forall|j: int| 0 <= j < n ==> #[trigger] g[j] == '/',
    ensures
        exists|k: int| slash_run(g, k),
    decreases g.len() - n,
{
    if n == g.len() || g[n] != '/' {
        assert(slash_run(g, n));
    } else {
        lemma_slash_run_exists(g, n + 1);
    }
}

/// A confined control-group path lies below the cgroup root and has no
/// `..` segment anywhere, so it cannot name a place outside the root.
pub proof fn lemma_cgroup_path_confined(g: Seq<char>)
    requires
        cgroup_path_of(g) is Some,
    ensures
        cgroup_path_of(g)->0.take(15) == "/sys/fs/cgroup/"@,
        !exists|i: int| parent_segment_at(cgroup_path_of(g)->0, i),
{
    reveal_strlit("/sys/fs/cgroup/");
    let root = "/sys/fs/cgroup/"@;
    lemma_slash_run_exists(g, 0);
    let k = choose|k: int| slash_run(g, k);
    let p = root + g.skip(k);
    assert(p.take(15) =~= root);
    assert forall|i: int| !#[trigger] parent_segment_at(p, i) by {
        if parent_segment_at(p, i) {
            if i < 15 {
                assert(p[i] == root[i]);
                assert(root[i] != '.' || root[i + 1] != '.');
                if i + 1 >= 15 {
                    assert(root[i] != '.');
                }
            } else {
                let j = i - 15 + k;
                assert(p[i] == g[j]);
                assert(p[i + 1] == g[j + 1]);
                if i == 15 {
                    assert(k >= 1);
                    assert(g[k - 1] == '/');
                } else {
                    assert(p[i - 1] == g[j - 1]);
                }
                if i + 2 < p.len() {
                    assert(p[i + 2] == g[j + 2]);
                }
                assert(parent_segment_at(g, j));
            }
        }
    }
}

/// The counters and state a cgroup's files showed.
#[derive(Debug, Clone, Copy, PartialEq, Eq, Default)]
pub struct CgroupReadings {
    /// Every counter and the population state could be read.
    pub complete: bool,
    pub memory_high_events: Option<u64>,
    pub memory_max_events: Option<u64>,
    pub oom_events: Option<u64>,
    pub oom_kill_events: Option<u64>,
    pub process_limit_events: Option<u64>,
    pub memory_peak_bytes: Option<u64>,
    pub swap_peak_bytes: Option<u64>,
    pub process_peak: Option<u64>,
    /// The tree is empty (`populated 0`), when the event file says.
    pub tree_empty: Option<bool>,
}

/// The counter `key` of an event file's text.
pub open spec fn event_counter(text: Seq<char>, key: Seq<char>) -> Option<u64> {
    last_counter(counter_pairs(text_lines(text)), key)
}

pub open spec fn text_view(text: Option<&str>) -> Option<Seq<char>> {
    match text {
        Some(t) => Some(t@),
        None => None,
    }
}

/// What a cgroup's files show: the `high`, `max`, `oom` and `oom_kill`
/// memory events, the `max` process-limit events, the memory, swap and
/// process peaks, and whether it is populated; complete when all of them
/// could be read.
pub fn cgroup_readings(
    memory_events: &str,
    pids_events: &str,
    cgroup_events: &str,
    memory_peak: Option<&str>,
    swap_peak: Option<&str>,
    pids_peak: Option<&str>,
) -> (r: CgroupReadings)
    ensures
        r.memory_high_events == event_counter(memory_events@, "high"@),
        r.memory_max_events == event_counter(memory_events@, "max"@),
        r.oom_events == event_counter(memory_events@, "oom"@),
        r.oom_kill_events == event_counter(memory_events@, "oom_kill"@),
        r.process_limit_events == event_counter(pids_events@, "max"@),
        r.memory_peak_bytes == number_text(text_view(memory_peak)),
        r.swap_peak_bytes == number_text(text_view(swap_peak)),
        r.process_peak == number_text(text_view(pids_peak)),
        r.tree_empty == (match event_counter(cgroup_events@, "populated"@) {
            Some(v) => Some(v == 0),
            None => None,
        }),
        r.complete == (r.memory_high_events is Some && r.memory_max_events is Some && r.oom_events is Some
            && r.oom_kill_events is Some && r.process_limit_events is Some && r.memory_peak_bytes is Some
            && r.swap_peak_bytes is Some && r.process_peak is Some && r.tree_empty is Some),
{
    let memory = counters(memory_events);
    let pids = counters(pids_events);
    let cgroup = counters(cgroup_events);
    let tree_empty = match counter(&cgroup, "populated") {
        Some(v) => Some(v == 0),
        None => None,
    };
    let mut readings = CgroupReadings {
        complete: false,
        memory_high_events: counter(&memory, "high"),
        memory_max_events: counter(&memory, "max"),
        oom_events: counter(&memory, "oom"),
        oom_kill_events: counter(&memory, "oom_kill"),
        process_limit_events: counter(&pids, "max"),
        memory_peak_bytes: read_number(memory_peak),
        swap_peak_bytes: read_number(swap_peak),
        process_peak: read_number(pids_peak),
        tree_empty,
    };
    readings.complete = readings.memory_high_events.is_some() && readings.memory_max_events.is_some()
        && readings.oom_events.is_some() && readings.oom_kill_events.is_some()
        && readings.process_limit_events.is_some() && readings.memory_peak_bytes.is_some()
        && readings.swap_peak_bytes.is_some() && readings.process_peak.is_some() && readings.tree_empty.is_some();
    readings
}


/// The provider ended the unit on an out-of-memory result.
pub open spec fn oom_result(pv: Seq<(Seq<char>, Seq<char>)>) -> bool {
    last_property(pv, "Result"@) == Some("oom"@) || last_property(pv, "Result"@) == Some("oom-kill"@)
}

/// The unit is inactive, dead or failed.
pub open spec fn unit_inactive(pv: Seq<(Seq<char>, Seq<char>)>) -> bool {
    ||| last_property(pv, "ActiveState"@) == Some("inactive"@)
    ||| last_property(pv, "SubState"@) == Some("dead"@)
    ||| last_property(pv, "SubState"@) == Some("failed"@)
}

pub open spec fn positive(n: Option<u64>) -> bool {
    n matches Some(v) && v > 0
}

pub open spec fn zero_to_unknown(n: Option<u64>) -> Option<u64> {
    if n == Some(0u64) {
        None
    } else {
        n
    }
}

/// The cgroup readings as an observation reports them: the unit's own
/// memory peak stands in for a peak the cgroup no longer shows, and after an
/// out-of-memory result a zero memory-limit or OOM counter, which conflicts
/// with that result, is reported as unknown and the readings as incomplete.
pub open spec fn reported_readings(pv: Seq<(Seq<char>, Seq<char>)>, raw: CgroupReadings) -> CgroupReadings {
    let peak = if raw.memory_peak_bytes is None {
        match last_property(pv, "MemoryPeak"@) {
            Some(v) => u64_text(v),
            None => None,
        }
    } else {
        raw.memory_peak_bytes
    };
    let conflict = oom_result(pv) && (raw.memory_max_events == Some(0u64) || raw.oom_events == Some(0u64)
        || raw.oom_kill_events == Some(0u64));
    CgroupReadings {
        complete: raw.complete && !conflict,
        memory_high_events: raw.memory_high_events,
        memory_max_events: if oom_result(pv) { zero_to_unknown(raw.memory_max_events) } else { raw.memory_max_events },
        oom_events: if oom_result(pv) { zero_to_unknown(raw.oom_events) } else { raw.oom_events },
        oom_kill_events: if oom_result(pv) { zero_to_unknown(raw.oom_kill_events) } else { raw.oom_kill_events },
        process_limit_events: raw.process_limit_events,
        memory_peak_bytes: peak,
        swap_peak_bytes: raw.swap_peak_bytes,
        process_peak: raw.process_peak,
        tree_empty: raw.tree_empty,
    }
}

/// Whether the tree is empty: as the cgroup says, or, when it does not,
/// established by an inactive unit whose control group the provider lists
/// as empty (it removes the group once the tree is gone).
pub open spec fn tree_empty_of(
    pv: Seq<(Seq<char>, Seq<char>)>,
    control_complete: bool,
    readings: Option<CgroupReadings>,
) -> Option<bool> {
    match readings {
        Some(r) if r.tree_empty is Some => r.tree_empty,
        _ => if control_complete && unit_inactive(pv) && last_property(pv, "ControlGroup"@) == Some(Seq::<char>::empty()) {
            Some(true)
        } else {
            None
        },
    }
}

/// A memory-limit, OOM or process-limit event was counted, or the unit
/// ended on an out-of-memory result.
pub open spec fn resources_exhausted(pv: Seq<(Seq<char>, Seq<char>)>, readings: Option<CgroupReadings>) -> bool {
    ||| readings matches Some(r) && (positive(r.memory_max_events) || positive(r.oom_events) || positive(r.oom_kill_events)
        || positive(r.process_limit_events))
    ||| oom_result(pv)
}

/// What one observation establishes: the readings to report and the
/// lifecycle facts.
#[derive(Debug, Clone, Copy, PartialEq, Eq)]
pub struct ProviderAssessment {
    pub readings: Option<CgroupReadings>,
    pub facts: LifecycleFacts,
}

/// The facts of one observation, from the provider's properties, its
/// control-group readings, and what the runtime itself knows: whether the
/// launcher was reaped, the provider confirmed the unit, the deadline passed,
/// cancellation was requested, and output exceeded its bound.
pub fn assess_observation(
    properties: &Vec<(String, String)>,
    control_complete: bool,
    readings: Option<CgroupReadings>,
    reaped: bool,
    provider_ready: bool,
    deadline_passed: bool,
    cancellation_requested: bool,
    output_exhausted: bool,
) -> (r: ProviderAssessment)
    ensures
        ({
            let pv = property_views(properties@);
            let reported = match readings {
                Some(raw) => Some(reported_readings(pv, raw)),
                None => None,
            };
            &&& r.readings == reported
            &&& r.facts == (LifecycleFacts {
                reaped,
                unit_inactive: unit_inactive(pv),
                tree_empty: tree_empty_of(pv, control_complete, reported),
                provider_ready,
                output_exhausted,
                timed_out: deadline_passed || last_property(pv, "Result"@) == Some("timeout"@),
                resource_exhausted: resources_exhausted(pv, reported),
                cancellation_requested,
            })
        }),
{
    let result = property(properties, "Result");
    let oom = match result {
        Some(v) => crate::text::text_eq(v.as_str(), "oom") || crate::text::text_eq(v.as_str(), "oom-kill"),
        None => false,
    };
    let timeout_result = match result {
        Some(v) => crate::text::text_eq(v.as_str(), "timeout"),
        None => false,
    };
    let reported = match readings {
        Some(raw) => {
            let peak = if raw.memory_peak_bytes.is_none() {
                match property(properties, "MemoryPeak") {
                    Some(v) => parse_u64(v.as_str()),
                    None => None,
                }
            } else {
                raw.memory_peak_bytes
            };
            let conflict = oom && (raw.memory_max_events == Some(0u64) || raw.oom_events == Some(0u64)
                || raw.oom_kill_events == Some(0u64));
            Some(
                CgroupReadings {
                    complete: raw.complete && !conflict,
                    memory_high_events: raw.memory_high_events,
                    memory_max_events: if oom && raw.memory_max_events == Some(0u64) { None } else { raw.memory_max_events },
                    oom_events: if oom && raw.oom_events == Some(0u64) { None } else { raw.oom_events },
                    oom_kill_events: if oom && raw.oom_kill_events == Some(0u64) { None } else { raw.oom_kill_events },
                    process_limit_events: raw.process_limit_events,
                    memory_peak_bytes: peak,
                    swap_peak_bytes: raw.swap_peak_bytes,
                    process_peak: raw.process_peak,
                    tree_empty: raw.tree_empty,
                },
            )
        },
        None => None,
    };
    let inactive = match property(properties, "ActiveState") {
        Some(v) => crate::text::text_eq(v.as_str(), "inactive"),
        None => false,
    } || match property(properties, "SubState") {
        Some(v) => crate::text::text_eq(v.as_str(), "dead") || crate::text::text_eq(v.as_str(), "failed"),
        None => false,
    };
    let group = property(properties, "ControlGroup");
    let group_removed = match group {
        Some(v) => v.as_str().unicode_len() == 0,
        None => false,
    };
    proof {
        if let Some(v) = group {
            if v@.len() == 0 {
                assert(v@ =~= Seq::<char>::empty());
            }
        }
    }
    let tree_empty = match reported {
        Some(r) if r.tree_empty.is_some() => r.tree_empty,
        _ => if control_complete && inactive && group_removed {
            Some(true)
        } else {
            None
        },
    };
    let resource_exhausted = match reported {
        Some(r) => {
            let counted = |n: Option<u64>| -> (b: bool)
                ensures
                    b == positive(n),
                { match n {
                    Some(v) => v > 0,
                    None => false,
                } };
            counted(r.memory_max_events) || counted(r.oom_events) || counted(r.oom_kill_events) || counted(r.process_limit_events)
        },
        None => false,
    } || oom;
    ProviderAssessment {
        readings: reported,
        facts: LifecycleFacts {
            reaped,
            unit_inactive: inactive,
            tree_empty,
            provider_ready,
            output_exhausted,
            timed_out: deadline_passed || timeout_result,
            resource_exhausted,
            cancellation_requested,
        },
    }
}

/// The provider confirmed that the unit is loaded under this name.
pub fn unit_loaded(properties: &Vec<(String, String)>, unit: &str) -> (r: bool)
    ensures
        r == (last_property(property_views(properties@), "LoadState"@) == Some("loaded"@) && last_property(
            property_views(properties@),
            "Id"@,
        ) == Some(unit@)),
{
    let loaded = match property(properties, "LoadState") {
        Some(v) => crate::text::text_eq(v.as_str(), "loaded"),
        None => false,
    };
    let named = match property(properties, "Id") {
        Some(v) => crate::text::text_eq(v.as_str(), unit),
        None => false,
    };
    loaded && named
}

} // verus!
