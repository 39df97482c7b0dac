use vstd::prelude::*;

verus! {

/// `pat` occurs in `s` starting at index `i`.
pub open spec fn occurs_at(s: Seq<char>, pat: Seq<char>, i: int) -> bool {
    0 <= i && i + pat.len() <= s.len() && s.subrange(i, i + pat.len()) == pat
}

/// `i` is the first index in `lo..` at which `pat` occurs and ends no later
/// than `hi`, that is, the first occurrence inside the window `s[lo..hi]`.
pub open spec fn is_first_in(s: Seq<char>, pat: Seq<char>, lo: int, hi: int, i: int) -> bool {
    &&& lo <= i
    &&& i + pat.len() <= hi
    &&& occurs_at(s, pat, i)
    &&& forall|j: int| lo <= j < i ==> !occurs_at(s, pat, j)
}

/// Where `pat` first occurs inside the window `s[lo..hi]`, if anywhere.
pub open spec fn first_in(s: Seq<char>, pat: Seq<char>, lo: int, hi: int) -> Option<int> {
    if exists|i: int| is_first_in(s, pat, lo, hi, i) {
        Some(choose|i: int| is_first_in(s, pat, lo, hi, i))
    } else {
        None
    }
}

proof fn lemma_first_in_is(s: Seq<char>, pat: Seq<char>, lo: int, hi: int, i: int)
    requires
        is_first_in(s, pat, lo, hi, i),
    ensures
        first_in(s, pat, lo, hi) == Some(i),
{
    let c = choose|k: int| is_first_in(s, pat, lo, hi, k);
    assert(is_first_in(s, pat, lo, hi, c));
    if c < i {
        assert(!occurs_at(s, pat, c));
    }
    if i < c {
        assert(!occurs_at(s, pat, i));
    }
}

proof fn lemma_first_in_none(s: Seq<char>, pat: Seq<char>, lo: int, hi: int)
    requires
        forall|j: int| lo <= j && j + pat.len() <= hi ==> !occurs_at(s, pat, j),
    ensures
        first_in(s, pat, lo, hi) is None,
{
}

/// Whether `pat` occurs in `s` at index `i`.
fn matches_at(s: &Vec<char>, pat: &Vec<char>, i: usize) -> (b: bool)
    requires
        i + pat@.len() <= s@.len(),
    ensures
        b == occurs_at(s@, pat@, i as int),
{
    assert(s@.len() == s.len());
    let mut k: usize = 0;
    while k < pat.len()
        invariant
            i + pat@.len() <= s@.len(),
            s@.len() <= usize::MAX,
            k <= pat@.len(),
            forall|m: int| 0 <= m < k ==> s@[i + m] == pat@[m],
        decreases pat@.len() - k,
    {
        if s[i + k] != pat[k] {
            assert(s@.subrange(i as int, i + pat@.len())[k as int] != pat@[k as int]);
            return false;
        }
        k = k + 1;
    }
    assert(s@.subrange(i as int, i + pat@.len()) =~= pat@);
    true
}

/// The first index in `lo..` at which `pat` occurs inside `s[lo..hi]`.
fn find_in(s: &Vec<char>, pat: &Vec<char>, lo: usize, hi: usize) -> (r: Option<usize>)
    requires
        lo <= hi <= s@.len(),
    ensures
        match r {
            Some(i) => first_in(s@, pat@, lo as int, hi as int) == Some(i as int),
            None => first_in(s@, pat@, lo as int, hi as int) is None,
        },
{
    if pat.len() > hi - lo {
        proof {
            lemma_first_in_none(s@, pat@, lo as int, hi as int);
        }
        return None;
    }
    let last: usize = hi - pat.len();
    let mut i: usize = lo;
    loop
        invariant
            lo <= i <= last,
            last + pat@.len() == hi,
            hi <= s@.len(),
            forall|j: int| lo <= j < i ==> !occurs_at(s@, pat@, j),
        ensures
            forall|j: int| lo <= j <= last ==> !occurs_at(s@, pat@, j),
        decreases last - i,
    {
        if matches_at(s, pat, i) {
            proof {
                lemma_first_in_is(s@, pat@, lo as int, hi as int, i as int);
            }
            return Some(i);
        }
        if i == last {
            break;
        }
        i = i + 1;
    }
    proof {
        lemma_first_in_none(s@, pat@, lo as int, hi as int);
    }
    None
}

/// `"list":`, the key of the forecast's array of days.
pub open spec fn list_key() -> Seq<char> {
    seq!['"', 'l', 'i', 's', 't', '"', ':']
}

/// `"temp":{`, the key of a day's temperatures followed by the opening brace
/// of their object.
pub open spec fn temp_key() -> Seq<char> {
    seq!['"', 't', 'e', 'm', 'p', '"', ':', '{']
}

/// `}`, the end of a temperatures object.
pub open spec fn close_key() -> Seq<char> {
    seq!['}']
}

/// `"day":`, the key of the day temperature inside a temperatures object.
pub open spec fn day_key() -> Seq<char> {
    seq!['"', 'd', 'a', 'y', '"', ':']
}

/// The characters that end a value inside a temperatures object.
pub open spec fn is_value_delimiter(c: char) -> bool {
    c == ',' || c == '}'
}

/// `i` is the first index in `from..to` that holds a value delimiter.
pub open spec fn is_first_delimiter(s: Seq<char>, from: int, to: int, i: int) -> bool {
    &&& from <= i < to
    &&& is_value_delimiter(s[i])
    &&& forall|j: int| from <= j < i ==> !is_value_delimiter(s[j])
}

/// Where the value that starts at `from` ends: at the first delimiter in
/// `from..to`, or at `to` where there is none.
pub open spec fn value_end(s: Seq<char>, from: int, to: int) -> int {
    if exists|i: int| is_first_delimiter(s, from, to, i) {
        choose|i: int| is_first_delimiter(s, from, to, i)
    } else {
        to
    }
}

/// Unicode's White_Space property, which `char::is_whitespace` and
/// `str::trim` go by.
pub open spec fn is_white_space(c: char) -> bool {
    let u: u32 = c as u32;
    ||| 0x9 <= u <= 0xd
    ||| u == 0x20
    ||| u == 0x85
    ||| u == 0xa0
    ||| u == 0x1680
    ||| 0x2000 <= u <= 0x200a
    ||| u == 0x2028
    ||| u == 0x2029
    ||| u == 0x202f
    ||| u == 0x205f
    ||| u == 0x3000
}

/// `v` without its leading white space.
pub open spec fn trim_start(v: Seq<char>) -> Seq<char>
    decreases v.len(),
{
    if v.len() > 0 && is_white_space(v[0]) {
        trim_start(v.drop_first())
    } else {
        v
    }
}

/// `v` without its trailing white space.
pub open spec fn trim_end(v: Seq<char>) -> Seq<char>
    decreases v.len(),
{
    if v.len() > 0 && is_white_space(v.last()) {
        trim_end(v.drop_last())
    } else {
        v
    }
}

/// `v` without its leading and trailing white space.
pub open spec fn trim(v: Seq<char>) -> Seq<char> {
    trim_end(trim_start(v))
}

/// The day temperature text of the temperatures object `s[open..=close]`:
/// what follows its first `"day":`, up to the next delimiter, trimmed; none
/// where the object has no `"day":`.
pub open spec fn day_value(s: Seq<char>, open: int, close: int) -> Option<Seq<char>> {
    match first_in(s, day_key(), open, close + 1) {
        Some(d) => {
            let start: int = d + day_key().len();
            Some(trim(s.subrange(start, value_end(s, start, close + 1))))
        },
        None => None,
    }
}

/// The day temperature texts of the temperatures objects that start at or
/// after `from`, in order. Each object runs from the `{` of a `"temp":{` to
/// the first `}` after it; the scan goes on after that `}` and stops at the
/// first `"temp":{` that no `}` follows.
pub open spec fn day_values_from(s: Seq<char>, from: int) -> Seq<Seq<char>>
    decreases s.len() - from,
{
    match first_in(s, temp_key(), from, s.len() as int) {
        Some(t) => {
            let open: int = t + temp_key().len() - 1;
            match first_in(s, close_key(), open, s.len() as int) {
                Some(close) => {
                    let rest = day_values_from(s, close + 1);
                    match day_value(s, open, close) {
                        Some(v) => seq![v] + rest,
                        None => rest,
                    }
                },
                None => Seq::empty(),
            }
        },
        None => Seq::empty(),
    }
}

/// The day temperature texts of a daily forecast: those of the temperatures
/// objects that follow its first `"list":`, in order; none where it has no
/// `"list":`.
pub open spec fn day_temperatures(s: Seq<char>) -> Seq<Seq<char>> {
    match first_in(s, list_key(), 0, s.len() as int) {
        Some(l) => day_values_from(s, l),
        None => Seq::empty(),
    }
}

/// A text that `extract_day_temperatures` can return: no delimiter inside,
/// no white space at either end.
pub open spec fn is_clean_value(v: Seq<char>) -> bool {
    &&& forall|i: int| 0 <= i < v.len() ==> !is_value_delimiter(#[trigger] v[i])
    &&& v.len() > 0 ==> !is_white_space(v[0]) && !is_white_space(v.last())
}

proof fn lemma_trim_start_is_suffix(v: Seq<char>)
    ensures
        exists|a: int| 0 <= a <= v.len() && trim_start(v) == v.subrange(a, v.len() as int),
        trim_start(v).len() > 0 ==> !is_white_space(trim_start(v)[0]),
    decreases v.len(),
{
    if v.len() > 0 && is_white_space(v[0]) {
        lemma_trim_start_is_suffix(v.drop_first());
        let a = choose|a: int|
            0 <= a <= v.drop_first().len() && trim_start(v.drop_first())
                == v.drop_first().subrange(a, v.drop_first().len() as int);
        assert(v.drop_first().subrange(a, v.drop_first().len() as int) =~= v.subrange(
            a + 1,
            v.len() as int,
        ));
    } else {
        assert(v.subrange(0, v.len() as int) =~= v);
    }
}

proof fn lemma_trim_end_is_prefix(v: Seq<char>)
    ensures
        exists|b: int| 0 <= b <= v.len() && trim_end(v) == v.subrange(0, b),
        trim_end(v).len() > 0 ==> !is_white_space(trim_end(v).last()),
    decreases v.len(),
{
    if v.len() > 0 && is_white_space(v.last()) {
        lemma_trim_end_is_prefix(v.drop_last());
        let b = choose|b: int|
            0 <= b <= v.drop_last().len() && trim_end(v.drop_last()) == v.drop_last().subrange(
                0,
                b,
            );
        assert(v.drop_last().subrange(0, b) =~= v.subrange(0, b));
    } else {
        assert(v.subrange(0, v.len() as int) =~= v);
    }
}

proof fn lemma_trim_start_drops_white_space(v: Seq<char>)
    ensures
        exists|a: int|
            0 <= a <= v.len() && trim_start(v) == v.subrange(a, v.len() as int) && (forall|i: int|
                0 <= i < a ==> is_white_space(#[trigger] v[i])),
    decreases v.len(),
{
    if v.len() > 0 && is_white_space(v[0]) {
        let w = v.drop_first();
        lemma_trim_start_drops_white_space(w);
        let a = choose|a: int|
            0 <= a <= w.len() && trim_start(w) == w.subrange(a, w.len() as int) && (forall|i: int|
                0 <= i < a ==> is_white_space(#[trigger] w[i]));
        assert(w.subrange(a, w.len() as int) =~= v.subrange(a + 1, v.len() as int));
        assert forall|i: int| 0 <= i < a + 1 implies is_white_space(#[trigger] v[i]) by {
            if i > 0 {
                assert(v[i] == w[i - 1]);
            }
        }
    } else {
        assert(v.subrange(0, v.len() as int) =~= v);
    }
}

proof fn lemma_trim_end_drops_white_space(v: Seq<char>)
    ensures
        exists|b: int|
            0 <= b <= v.len() && trim_end(v) == v.subrange(0, b) && (forall|i: int|
                b <= i < v.len() ==> is_white_space(#[trigger] v[i])),
    decreases v.len(),
{
    if v.len() > 0 && is_white_space(v.last()) {
        let w = v.drop_last();
        lemma_trim_end_drops_white_space(w);
        let b = choose|b: int|
            0 <= b <= w.len() && trim_end(w) == w.subrange(0, b) && (forall|i: int|
                b <= i < w.len() ==> is_white_space(#[trigger] w[i]));
        assert(w.subrange(0, b) =~= v.subrange(0, b));
        assert forall|i: int| b <= i < v.len() implies is_white_space(#[trigger] v[i]) by {
            if i < w.len() {
                assert(v[i] == w[i]);
            }
        }
    } else {
        assert(v.subrange(0, v.len() as int) =~= v);
    }
}

/// Trimming removes white space and nothing else: the trimmed text is the
/// part `v[a..b]` of `v` where everything before `a` and everything from `b`
/// on is white space, and it neither starts nor ends with white space.
pub proof fn lemma_trim_removes_only_white_space(v: Seq<char>)
    ensures
        exists|a: int, b: int|
            #![trigger v.subrange(a, b)]
            0 <= a <= b <= v.len() && trim(v) == v.subrange(a, b) && (forall|i: int|
                0 <= i < a ==> is_white_space(#[trigger] v[i])) && (forall|i: int|
                b <= i < v.len() ==> is_white_space(#[trigger] v[i])),
        trim(v).len() > 0 ==> !is_white_space(trim(v)[0]) && !is_white_space(trim(v).last()),
{
    lemma_trim_start_drops_white_space(v);
    let u = trim_start(v);
    let a = choose|a: int|
        0 <= a <= v.len() && u == v.subrange(a, v.len() as int) && (forall|i: int|
            0 <= i < a ==> is_white_space(#[trigger] v[i]));
    lemma_trim_end_drops_white_space(u);
    let c = choose|c: int|
        0 <= c <= u.len() && trim_end(u) == u.subrange(0, c) && (forall|i: int|
            c <= i < u.len() ==> is_white_space(#[trigger] u[i]));
    let b = a + c;
    assert(u.subrange(0, c) =~= v.subrange(a, b));
    assert forall|i: int| b <= i < v.len() implies is_white_space(#[trigger] v[i]) by {
        assert(v[i] == u[i - a]);
    }
    assert(trim(v) == v.subrange(a, b));
    lemma_trim_start_is_suffix(v);
    lemma_trim_end_is_prefix(u);
    if trim(v).len() > 0 {
        assert(trim(v)[0] == u[0]);
    }
}

/// A text with no white space at either end is left as it is: in
/// particular the day temperature `10` stays `10`.
pub proof fn lemma_trim_keeps_text_without_white_ends(v: Seq<char>)
    requires
        v.len() > 0 ==> !is_white_space(v[0]) && !is_white_space(v.last()),
    ensures
        trim(v) == v,
{
    lemma_trim_removes_only_white_space(v);
    let (a, b) = choose|a: int, b: int|
        #![trigger v.subrange(a, b)]
        0 <= a <= b <= v.len() && trim(v) == v.subrange(a, b) && (forall|i: int|
            0 <= i < a ==> is_white_space(#[trigger] v[i])) && (forall|i: int|
            b <= i < v.len() ==> is_white_space(#[trigger] v[i]));
    if a > 0 {
        assert(is_white_space(v[0]));
    }
    if b < v.len() {
        assert(is_white_space(v[v.len() - 1]));
    }
    assert(v.subrange(0, v.len() as int) =~= v);
}

proof fn lemma_trim_is_clean(v: Seq<char>)
    requires
        forall|i: int| 0 <= i < v.len() ==> !is_value_delimiter(#[trigger] v[i]),
    ensures
        is_clean_value(trim(v)),
{
    lemma_trim_start_is_suffix(v);
    let u = trim_start(v);
    let a = choose|a: int| 0 <= a <= v.len() && u == v.subrange(a, v.len() as int);
    lemma_trim_end_is_prefix(u);
    let w = trim_end(u);
    let b = choose|b: int| 0 <= b <= u.len() && w == u.subrange(0, b);
    assert forall|i: int| 0 <= i < w.len() implies !is_value_delimiter(#[trigger] w[i]) by {
        assert(w[i] == v[a + i]);
    }
    if w.len() > 0 {
        assert(w[0] == u[0]);
    }
}

proof fn lemma_some_delimiter_has_first(s: Seq<char>, from: int, to: int, k: int)
    requires
        from <= k < to,
        is_value_delimiter(s[k]),
    ensures
        exists|i: int| is_first_delimiter(s, from, to, i),
    decreases k - from,
{
    if exists|j: int| from <= j < k && is_value_delimiter(s[j]) {
        let j = choose|j: int| from <= j < k && is_value_delimiter(s[j]);
        lemma_some_delimiter_has_first(s, from, to, j);
    } else {
        assert(is_first_delimiter(s, from, to, k));
    }
}

proof fn lemma_value_has_no_delimiter(s: Seq<char>, from: int, to: int)
    requires
        0 <= from <= to <= s.len(),
    ensures
        from <= value_end(s, from, to) <= to,
        forall|i: int|
            0 <= i < s.subrange(from, value_end(s, from, to)).len() ==> !is_value_delimiter(
                #[trigger] s.subrange(from, value_end(s, from, to))[i],
            ),
{
    let e: int = value_end(s, from, to);
    if !(exists|i: int| is_first_delimiter(s, from, to, i)) {
        assert forall|k: int| from <= k < to implies !is_value_delimiter(s[k]) by {
            if is_value_delimiter(s[k]) {
                lemma_some_delimiter_has_first(s, from, to, k);
            }
        }
    }
    assert forall|i: int| 0 <= i < s.subrange(from, e).len() implies !is_value_delimiter(
        #[trigger] s.subrange(from, e)[i],
    ) by {
        assert(s.subrange(from, e)[i] == s[from + i]);
    }
}

proof fn lemma_day_values_from_clean(s: Seq<char>, from: int)
    ensures
        forall|k: int|
            0 <= k < day_values_from(s, from).len() ==> is_clean_value(
                #[trigger] day_values_from(s, from)[k],
            ),
    decreases s.len() - from,
{
    match first_in(s, temp_key(), from, s.len() as int) {
        Some(t) => {
            assert(is_first_in(s, temp_key(), from, s.len() as int, t));
            let open: int = t + temp_key().len() - 1;
            match first_in(s, close_key(), open, s.len() as int) {
                Some(close) => {
                    assert(is_first_in(s, close_key(), open, s.len() as int, close));
                    lemma_day_values_from_clean(s, close + 1);
                    let rest = day_values_from(s, close + 1);
                    match day_value(s, open, close) {
                        Some(v) => {
                            let d: int = first_in(s, day_key(), open, close + 1)->0;
                            assert(is_first_in(s, day_key(), open, close + 1, d));
                            let start: int = d + day_key().len();
                            lemma_value_has_no_delimiter(s, start, close + 1);
                            lemma_trim_is_clean(
                                s.subrange(start, value_end(s, start, close + 1)),
                            );
                            assert(day_values_from(s, from) == seq![v] + rest);
                            assert forall|k: int|
                                0 <= k < day_values_from(s, from).len() implies is_clean_value(
                                #[trigger] day_values_from(s, from)[k],
                            ) by {
                                if k > 0 {
                                    assert(day_values_from(s, from)[k] == rest[k - 1]);
                                }
                            }
                        },
                        None => {},
                    }
                },
                None => {},
            }
        },
        None => {},
    }
}

/// Every day temperature text that the scan finds is clean: it holds no
/// `,` or `}`, and starts and ends with something other than white space.
pub proof fn lemma_day_temperatures_are_clean(s: Seq<char>)
    ensures
        forall|k: int|
            0 <= k < day_temperatures(s).len() ==> is_clean_value(
                #[trigger] day_temperatures(s)[k],
            ),
{
    match first_in(s, list_key(), 0, s.len() as int) {
        Some(l) => lemma_day_values_from_clean(s, l),
        None => {},
    }
}

/// `a` agrees with `b` moved `d` places on, inside the window `a[lo..hi]`.
spec fn agree_on(a: Seq<char>, b: Seq<char>, d: int, lo: int, hi: int) -> bool {
    &&& 0 <= d <= lo
    &&& lo <= hi
    &&& hi <= a.len()
    &&& hi - d <= b.len()
    &&& forall|i: int| lo <= i < hi ==> #[trigger] a[i] == b[i - d]
}

proof fn lemma_occurs_shift(
    a: Seq<char>,
    b: Seq<char>,
    d: int,
    lo: int,
    hi: int,
    pat: Seq<char>,
    i: int,
)
    requires
        agree_on(a, b, d, lo, hi),
        lo <= i,
        i + pat.len() <= hi,
    ensures
        occurs_at(a, pat, i) == occurs_at(b, pat, i - d),
{
    assert forall|k: int| 0 <= k < pat.len() implies #[trigger] a.subrange(i, i + pat.len())[k]
        == b.subrange(i - d, i - d + pat.len())[k] by {
        assert(a[i + k] == b[i + k - d]);
    }
    assert(a.subrange(i, i + pat.len()) =~= b.subrange(i - d, i - d + pat.len()));
}

proof fn lemma_first_in_shift(
    a: Seq<char>,
    b: Seq<char>,
    d: int,
    lo: int,
    hi: int,
    pat: Seq<char>,
    x: int,
    y: int,
)
    requires
        agree_on(a, b, d, lo, hi),
        lo <= x,
        y <= hi,
    ensures
        first_in(a, pat, x, y) == match first_in(b, pat, x - d, y - d) {
            Some(i) => Some(i + d),
            None => None::<int>,
        },
{
    let xb: int = x - d;
    let yb: int = y - d;
    if exists|i: int| is_first_in(a, pat, x, y, i) {
        let i = choose|i: int| is_first_in(a, pat, x, y, i);
        lemma_occurs_shift(a, b, d, lo, hi, pat, i);
        assert forall|j: int| x - d <= j < i - d implies !occurs_at(b, pat, j) by {
            lemma_occurs_shift(a, b, d, lo, hi, pat, j + d);
        }
        assert(is_first_in(b, pat, x - d, y - d, i - d));
        lemma_first_in_is(b, pat, x - d, y - d, i - d);
    } else if exists|k: int| is_first_in(b, pat, xb, yb, k) {
        let k = choose|k: int| is_first_in(b, pat, xb, yb, k);
        lemma_occurs_shift(a, b, d, lo, hi, pat, k + d);
        assert forall|j: int| x <= j < k + d implies !occurs_at(a, pat, j) by {
            lemma_occurs_shift(a, b, d, lo, hi, pat, j);
        }
        assert(is_first_in(a, pat, x, y, k + d));
    }
}

proof fn lemma_value_end_is(s: Seq<char>, from: int, to: int, i: int)
    requires
        is_first_delimiter(s, from, to, i),
    ensures
        value_end(s, from, to) == i,
{
    let c = choose|k: int| is_first_delimiter(s, from, to, k);
    assert(is_first_delimiter(s, from, to, c));
    if c < i {
        assert(!is_value_delimiter(s[c]));
    }
    if i < c {
        assert(!is_value_delimiter(s[i]));
    }
}

proof fn lemma_value_end_shift(
    a: Seq<char>,
    b: Seq<char>,
    d: int,
    lo: int,
    hi: int,
    from: int,
    to: int,
)
    requires
        agree_on(a, b, d, lo, hi),
        lo <= from <= to <= hi,
    ensures
        value_end(a, from, to) == value_end(b, from - d, to - d) + d,
{
    let fb: int = from - d;
    let tb: int = to - d;
    if exists|i: int| is_first_delimiter(a, from, to, i) {
        let i = choose|i: int| is_first_delimiter(a, from, to, i);
        assert(a[i] == b[i - d]);
        assert forall|j: int| from - d <= j < i - d implies !is_value_delimiter(b[j]) by {
            assert(a[j + d] == b[j]);
        }
        assert(is_first_delimiter(b, from - d, to - d, i - d));
        lemma_value_end_is(b, from - d, to - d, i - d);
    } else if exists|k: int| is_first_delimiter(b, fb, tb, k) {
        let k = choose|k: int| is_first_delimiter(b, fb, tb, k);
        assert(a[k + d] == b[k]);
        assert forall|j: int| from <= j < k + d implies !is_value_delimiter(a[j]) by {
            assert(a[j] == b[j - d]);
        }
        assert(is_first_delimiter(a, from, to, k + d));
    }
}

proof fn lemma_day_value_shift(
    a: Seq<char>,
    b: Seq<char>,
    d: int,
    lo: int,
    hi: int,
    open: int,
    close: int,
)
    requires
        agree_on(a, b, d, lo, hi),
        lo <= open,
        open <= close + 1 <= hi,
    ensures
        day_value(a, open, close) == day_value(b, open - d, close - d),
{
    lemma_first_in_shift(a, b, d, lo, hi, day_key(), open, close + 1);
    match first_in(a, day_key(), open, close + 1) {
        Some(k) => {
            assert(is_first_in(a, day_key(), open, close + 1, k));
            let start: int = k + day_key().len();
            lemma_value_end_shift(a, b, d, lo, hi, start, close + 1);
            let e: int = value_end(a, start, close + 1);
            lemma_value_has_no_delimiter(a, start, close + 1);
            assert forall|j: int| 0 <= j < e - start implies #[trigger] a.subrange(start, e)[j]
                == b.subrange(start - d, e - d)[j] by {
                assert(a[start + j] == b[start + j - d]);
            }
            assert(a.subrange(start, e) =~= b.subrange(start - d, e - d));
        },
        None => {},
    }
}

proof fn lemma_day_values_from_shift(s: Seq<char>, l: int, from: int)
    requires
        0 <= l <= from <= s.len(),
    ensures
        day_values_from(s, from) == day_values_from(s.subrange(l, s.len() as int), from - l),
    decreases s.len() - from,
{
    let n: int = s.len() as int;
    let t = s.subrange(l, n);
    assert(agree_on(s, t, l, l, n));
    lemma_first_in_shift(s, t, l, l, n, temp_key(), from, n);
    match first_in(s, temp_key(), from, n) {
        Some(tk) => {
            assert(is_first_in(s, temp_key(), from, n, tk));
            let open: int = tk + temp_key().len() - 1;
            lemma_first_in_shift(s, t, l, l, n, close_key(), open, n);
            match first_in(s, close_key(), open, n) {
                Some(c) => {
                    assert(is_first_in(s, close_key(), open, n, c));
                    lemma_day_value_shift(s, t, l, l, n, open, c);
                    lemma_day_values_from_shift(s, l, c + 1);
                },
                None => {},
            }
        },
        None => {},
    }
}

/// Everything before the first `"list":` has no effect on the scan: the
/// forecast from its first `"list":` on gives the same day temperatures.
pub proof fn lemma_day_temperatures_ignore_prefix(s: Seq<char>, l: int)
    requires
        first_in(s, list_key(), 0, s.len() as int) == Some(l),
    ensures
        day_temperatures(s.subrange(l, s.len() as int)) == day_temperatures(s),
{
    let n: int = s.len() as int;
    let t = s.subrange(l, n);
    assert(is_first_in(s, list_key(), 0, n, l));
    assert(agree_on(s, t, l, l, n));
    lemma_occurs_shift(s, t, l, l, n, list_key(), l);
    assert(is_first_in(t, list_key(), 0, n - l, 0));
    lemma_first_in_is(t, list_key(), 0, n - l, 0);
    lemma_day_values_from_shift(s, l, l);
}

/// A temperatures object whose day temperature is written `v`:
/// `{"temp":{"day":` then `v` then `}}`.
pub open spec fn temperature_object(v: Seq<char>) -> Seq<char> {
    seq!['{'] + temp_key() + day_key() + v + seq!['}', '}']
}

proof fn lemma_occurrence_has_first(s: Seq<char>, pat: Seq<char>, lo: int, hi: int, k: int)
    requires
        lo <= k,
        k + pat.len() <= hi,
        occurs_at(s, pat, k),
    ensures
        first_in(s, pat, lo, hi) is Some,
    decreases k - lo,
{
    if exists|j: int| lo <= j < k && occurs_at(s, pat, j) {
        let j = choose|j: int| lo <= j < k && occurs_at(s, pat, j);
        lemma_occurrence_has_first(s, pat, lo, hi, j);
    } else {
        assert(is_first_in(s, pat, lo, hi, k));
        lemma_first_in_is(s, pat, lo, hi, k);
    }
}

/// The characters of `s + temperature_object(v)` past `s`.
proof fn lemma_temperature_object_chars(s: Seq<char>, v: Seq<char>)
    ensures
        ({
            let w = s + temperature_object(v);
            let n = s.len() as int;
            let q = v.len() as int;
            &&& w.len() == n + 17 + q
            &&& forall|i: int| 0 <= i < n ==> #[trigger] w[i] == s[i]
            &&& w[n] == '{'
            &&& forall|k: int| 0 <= k < 8 ==> #[trigger] w[n + 1 + k] == temp_key()[k]
            &&& forall|k: int| 0 <= k < 6 ==> #[trigger] w[n + 9 + k] == day_key()[k]
            &&& forall|k: int| 0 <= k < q ==> #[trigger] w[n + 15 + k] == v[k]
            &&& w[n + 15 + q] == '}'
            &&& w[n + 16 + q] == '}'
        }),
{
    let u = temperature_object(v);
    let w = s + u;
    let n = s.len() as int;
    let q = v.len() as int;
    let p1 = seq!['{'] + temp_key();
    let p2 = p1 + day_key();
    let p3 = p2 + v;
    assert(u == p3 + seq!['}', '}']);
    assert forall|k: int| 0 <= k < 8 implies #[trigger] w[n + 1 + k] == temp_key()[k] by {
        assert(w[n + 1 + k] == u[1 + k]);
        assert(u[1 + k] == p3[1 + k]);
        assert(p3[1 + k] == p2[1 + k]);
        assert(p2[1 + k] == p1[1 + k]);
    }
    assert forall|k: int| 0 <= k < 6 implies #[trigger] w[n + 9 + k] == day_key()[k] by {
        assert(w[n + 9 + k] == u[9 + k]);
        assert(u[9 + k] == p3[9 + k]);
        assert(p3[9 + k] == p2[9 + k]);
    }
    assert forall|k: int| 0 <= k < q implies #[trigger] w[n + 15 + k] == v[k] by {
        assert(w[n + 15 + k] == u[15 + k]);
        assert(u[15 + k] == p3[15 + k]);
    }
    assert(w[n] == u[0]);
    assert(u[0] == p3[0]);
    assert(p3[0] == p2[0]);
    assert(p2[0] == p1[0]);
}

proof fn lemma_append_scan(s: Seq<char>, v: Seq<char>, from: int)
    requires
        0 <= from <= s.len(),
        s.len() > 0,
        s.last() == '}',
        forall|i: int| 0 <= i < v.len() ==> !is_value_delimiter(#[trigger] v[i]),
    ensures
        day_values_from(s + temperature_object(v), from) == day_values_from(s, from).push(
            trim(v),
        ),
    decreases s.len() - from,
{
    let w = s + temperature_object(v);
    let n: int = s.len() as int;
    let q: int = v.len() as int;
    let m: int = w.len() as int;
    lemma_temperature_object_chars(s, v);
    assert(agree_on(w, s, 0, 0, n));
    match first_in(s, temp_key(), from, n) {
        Some(t) => {
            assert(is_first_in(s, temp_key(), from, n, t));
            lemma_occurs_shift(w, s, 0, 0, n, temp_key(), t);
            assert forall|j: int| from <= j < t implies !occurs_at(w, temp_key(), j) by {
                lemma_occurs_shift(w, s, 0, 0, n, temp_key(), j);
            }
            assert(is_first_in(w, temp_key(), from, m, t));
            lemma_first_in_is(w, temp_key(), from, m, t);
            let open: int = t + temp_key().len() - 1;
            assert(s.subrange(n - 1, n) =~= close_key());
            lemma_occurrence_has_first(s, close_key(), open, n, n - 1);
            let c: int = first_in(s, close_key(), open, n)->0;
            assert(is_first_in(s, close_key(), open, n, c));
            lemma_occurs_shift(w, s, 0, 0, n, close_key(), c);
            assert forall|j: int| open <= j < c implies !occurs_at(w, close_key(), j) by {
                lemma_occurs_shift(w, s, 0, 0, n, close_key(), j);
            }
            assert(is_first_in(w, close_key(), open, m, c));
            lemma_first_in_is(w, close_key(), open, m, c);
            lemma_day_value_shift(w, s, 0, 0, n, open, c);
            lemma_append_scan(s, v, c + 1);
            let rest_s = day_values_from(s, c + 1);
            match day_value(s, open, c) {
                Some(x) => {
                    assert(seq![x] + rest_s.push(trim(v)) =~= (seq![x] + rest_s).push(trim(v)));
                },
                None => {},
            }
        },
        None => {
            lemma_append_scan_tail(s, v, from);
        },
    }
}

proof fn lemma_tail_temp(s: Seq<char>, v: Seq<char>, from: int)
    requires
        0 <= from <= s.len(),
        s.len() > 0,
        s.last() == '}',
        first_in(s, temp_key(), from, s.len() as int) is None,
    ensures
        first_in(s + temperature_object(v), temp_key(), from, (s.len() + 17 + v.len()) as int)
            == Some((s.len() + 1) as int),
{
    let w = s + temperature_object(v);
    let n: int = s.len() as int;
    let m: int = w.len() as int;
    lemma_temperature_object_chars(s, v);
    assert(agree_on(w, s, 0, 0, n));
    let t: int = n + 1;
    assert(w.subrange(t, t + 8) =~= temp_key());
    assert forall|j: int| from <= j < t implies !occurs_at(w, temp_key(), j) by {
        if j + 8 <= n {
            lemma_occurs_shift(w, s, 0, 0, n, temp_key(), j);
            if occurs_at(s, temp_key(), j) {
                lemma_occurrence_has_first(s, temp_key(), from, n, j);
            }
        } else if j < n {
            if occurs_at(w, temp_key(), j) {
                assert(w.subrange(j, j + 8)[n - 1 - j] == w[n - 1]);
                assert(w[n - 1] == s[n - 1]);
            }
        } else {
            if occurs_at(w, temp_key(), j) {
                assert(w.subrange(j, j + 8)[0] == w[n]);
            }
        }
    }
    assert(is_first_in(w, temp_key(), from, m, t));
    lemma_first_in_is(w, temp_key(), from, m, t);
}

proof fn lemma_tail_close(s: Seq<char>, v: Seq<char>)
    requires
        forall|i: int| 0 <= i < v.len() ==> !is_value_delimiter(#[trigger] v[i]),
    ensures
        first_in(
            s + temperature_object(v),
            close_key(),
            (s.len() + 8) as int,
            (s.len() + 17 + v.len()) as int,
        ) == Some((s.len() + 15 + v.len()) as int),
{
    let w = s + temperature_object(v);
    let n: int = s.len() as int;
    let q: int = v.len() as int;
    let m: int = w.len() as int;
    lemma_temperature_object_chars(s, v);
    let open: int = n + 8;
    let c: int = n + 15 + q;
    assert(w.subrange(c, c + 1) =~= close_key());
    assert forall|j: int| open <= j < c implies !occurs_at(w, close_key(), j) by {
        if occurs_at(w, close_key(), j) {
            assert(w.subrange(j, j + 1)[0] == w[j]);
            if j == open {
                assert(w[n + 1 + 7] == temp_key()[7]);
            } else if j < n + 15 {
                assert(w[n + 9 + (j - n - 9)] == day_key()[j - n - 9]);
            } else {
                assert(w[n + 15 + (j - n - 15)] == v[j - n - 15]);
            }
        }
    }
    assert(is_first_in(w, close_key(), open, m, c));
    lemma_first_in_is(w, close_key(), open, m, c);
}

proof fn lemma_tail_day_key(s: Seq<char>, v: Seq<char>)
    ensures
        first_in(
            s + temperature_object(v),
            day_key(),
            (s.len() + 8) as int,
            (s.len() + 16 + v.len()) as int,
        ) == Some((s.len() + 9) as int),
{
    let w = s + temperature_object(v);
    let n: int = s.len() as int;
    let q: int = v.len() as int;
    lemma_temperature_object_chars(s, v);
    let open: int = n + 8;
    let d: int = n + 9;
    assert forall|k: int| 0 <= k < 6 implies #[trigger] w.subrange(d, d + 6)[k] == day_key()[k] by {
        assert(w[n + 9 + k] == day_key()[k]);
    }
    assert(w.subrange(d, d + 6) =~= day_key());
    assert(occurs_at(w, day_key(), d));
    assert(w[open] == '{') by {
        assert(w[n + 1 + 7] == temp_key()[7]);
    }
    assert(!occurs_at(w, day_key(), open)) by {
        if occurs_at(w, day_key(), open) {
            assert(w.subrange(open, open + 6)[0] == w[open]);
            assert(day_key()[0] == '"');
        }
    }
    assert forall|j: int| open <= j < d implies !occurs_at(w, day_key(), j) by {
        assert(j == open);
    }
    assert(is_first_in(w, day_key(), open, n + 16 + q, d));
    lemma_first_in_is(w, day_key(), open, n + 16 + q, d);
}

proof fn lemma_tail_value(s: Seq<char>, v: Seq<char>)
    requires
        forall|i: int| 0 <= i < v.len() ==> !is_value_delimiter(#[trigger] v[i]),
    ensures
        value_end(
            s + temperature_object(v),
            (s.len() + 15) as int,
            (s.len() + 16 + v.len()) as int,
        ) == s.len() + 15 + v.len(),
        (s + temperature_object(v)).subrange(
            (s.len() + 15) as int,
            (s.len() + 15 + v.len()) as int,
        ) == v,
{
    let w = s + temperature_object(v);
    let n: int = s.len() as int;
    let q: int = v.len() as int;
    lemma_temperature_object_chars(s, v);
    let c: int = n + 15 + q;
    let start: int = n + 15;
    assert forall|j: int| start <= j < c implies !is_value_delimiter(w[j]) by {
        assert(w[n + 15 + (j - n - 15)] == v[j - n - 15]);
    }
    assert(is_first_delimiter(w, start, c + 1, c));
    lemma_value_end_is(w, start, c + 1, c);
    assert forall|k: int| 0 <= k < q implies #[trigger] w.subrange(start, c)[k] == v[k] by {
        assert(w[n + 15 + k] == v[k]);
    }
    assert(w.subrange(start, c) =~= v);
}

proof fn lemma_tail_day(s: Seq<char>, v: Seq<char>)
    requires
        forall|i: int| 0 <= i < v.len() ==> !is_value_delimiter(#[trigger] v[i]),
    ensures
        day_value(s + temperature_object(v), (s.len() + 8) as int, (s.len() + 15 + v.len()) as int) == Some(
            trim(v),
        ),
{
    let w = s + temperature_object(v);
    let open: int = (s.len() + 8) as int;
    let c: int = (s.len() + 15 + v.len()) as int;
    lemma_tail_day_key(s, v);
    lemma_tail_value(s, v);
    let start: int = (s.len() + 9) as int + day_key().len();
    assert(start == s.len() + 15);
    assert(first_in(w, day_key(), open, c + 1) == Some((s.len() + 9) as int));
    assert(value_end(w, start, c + 1) == c);
    assert(w.subrange(start, c) == v);
}

/// The scan of `s + temperature_object(v)` from `from`, where `s` has no
/// further temperatures object from `from` on, finds just the appended one.
proof fn lemma_append_scan_tail(s: Seq<char>, v: Seq<char>, from: int)
    requires
        0 <= from <= s.len(),
        s.len() > 0,
        s.last() == '}',
        forall|i: int| 0 <= i < v.len() ==> !is_value_delimiter(#[trigger] v[i]),
        first_in(s, temp_key(), from, s.len() as int) is None,
    ensures
        day_values_from(s + temperature_object(v), from) == day_values_from(s, from).push(
            trim(v),
        ),
{
    let w = s + temperature_object(v);
    let n: int = s.len() as int;
    let q: int = v.len() as int;
    let m: int = n + 17 + q;
    assert(w.len() == m);
    let c: int = n + 15 + q;
    let open: int = n + 8;
    assert(first_in(w, temp_key(), from, m) == Some(n + 1)) by {
        lemma_tail_temp(s, v, from);
    }
    assert(open == (n + 1) + temp_key().len() - 1);
    assert(first_in(w, close_key(), open, m) == Some(c)) by {
        lemma_tail_close(s, v);
    }
    assert(day_value(w, open, c) == Some(trim(v))) by {
        lemma_tail_day(s, v);
    }
    assert(day_values_from(w, c + 1) == Seq::<Seq<char>>::empty()) by {
        lemma_first_in_none(w, temp_key(), c + 1, m);
    }
    assert(day_values_from(w, from) == seq![trim(v)] + Seq::<Seq<char>>::empty());
    assert(day_values_from(w, from) =~= seq![trim(v)]);
    assert(day_values_from(s, from) =~= Seq::<Seq<char>>::empty());
}

/// Appending one temperatures object to a forecast that has a `"list":`
/// and ends in `}` appends exactly that object's day temperature, trimmed,
/// to the scan's result; the earlier ones stay as they were, in order. A day
/// temperature without white space at its ends comes out as it was written.
pub proof fn lemma_day_temperatures_append(s: Seq<char>, v: Seq<char>)
    requires
        first_in(s, list_key(), 0, s.len() as int) is Some,
        s.len() > 0,
        s.last() == '}',
        forall|i: int| 0 <= i < v.len() ==> !is_value_delimiter(#[trigger] v[i]),
    ensures
        day_temperatures(s + temperature_object(v)) == day_temperatures(s).push(trim(v)),
        is_clean_value(v) ==> day_temperatures(s + temperature_object(v)) == day_temperatures(
            s,
        ).push(v),
{
    if is_clean_value(v) {
        lemma_trim_keeps_text_without_white_ends(v);
    }
    let w = s + temperature_object(v);
    let n: int = s.len() as int;
    let m: int = w.len() as int;
    lemma_temperature_object_chars(s, v);
    assert(agree_on(w, s, 0, 0, n));
    let l: int = first_in(s, list_key(), 0, n)->0;
    assert(is_first_in(s, list_key(), 0, n, l));
    lemma_occurs_shift(w, s, 0, 0, n, list_key(), l);
    assert forall|j: int| 0 <= j < l implies !occurs_at(w, list_key(), j) by {
        lemma_occurs_shift(w, s, 0, 0, n, list_key(), j);
    }
    assert(is_first_in(w, list_key(), 0, m, l));
    lemma_first_in_is(w, list_key(), 0, m, l);
    lemma_append_scan(s, v, l);
}

/// Whether `c` is white space in Unicode's sense.
fn white_space(c: char) -> (b: bool)
    ensures
        b == is_white_space(c),
{
    ('\u{9}' <= c && c <= '\u{d}') || c == ' ' || c == '\u{85}' || c == '\u{a0}' || c
        == '\u{1680}' || ('\u{2000}' <= c && c <= '\u{200a}') || c == '\u{2028}' || c
        == '\u{2029}' || c == '\u{202f}' || c == '\u{205f}' || c == '\u{3000}'
}

/// Where the value that starts at `from` ends inside `s[..to]`.
fn find_value_end(s: &Vec<char>, from: usize, to: usize) -> (r: usize)
    requires
        from <= to <= s@.len(),
    ensures
        r as int == value_end(s@, from as int, to as int),
        from <= r <= to,
{
    let mut i: usize = from;
    while i < to
        invariant
            from <= i <= to,
            to <= s@.len(),
            forall|j: int| from <= j < i ==> !is_value_delimiter(s@[j]),
        decreases to - i,
    {
        if s[i] == ',' || s[i] == '}' {
            proof {
                let ii: int = i as int;
                assert(is_first_delimiter(s@, from as int, to as int, ii));
                let c = choose|k: int| is_first_delimiter(s@, from as int, to as int, k);
                if c < ii {
                    assert(!is_value_delimiter(s@[c]));
                }
                if ii < c {
                    assert(!is_value_delimiter(s@[ii]));
                }
            }
            return i;
        }
        i = i + 1;
    }
    to
}

/// The bounds of `s[start..end]` without its leading and trailing white
/// space.
fn trim_bounds(s: &Vec<char>, start: usize, end: usize) -> (r: (usize, usize))
    requires
        start <= end <= s@.len(),
    ensures
        start <= r.0 <= r.1 <= end,
        s@.subrange(r.0 as int, r.1 as int) == trim(s@.subrange(start as int, end as int)),
{
    let mut a: usize = start;
    while a < end && white_space(s[a])
        invariant
            start <= a <= end,
            end <= s@.len(),
            trim_start(s@.subrange(start as int, end as int)) == trim_start(
                s@.subrange(a as int, end as int),
            ),
        decreases end - a,
    {
        assert(s@.subrange(a as int, end as int).drop_first() =~= s@.subrange(
            a + 1,
            end as int,
        ));
        a = a + 1;
    }
    assert(trim_start(s@.subrange(a as int, end as int)) == s@.subrange(a as int, end as int));
    let mut b: usize = end;
    while b > a && white_space(s[b - 1])
        invariant
            start <= a <= b <= end,
            end <= s@.len(),
            trim_start(s@.subrange(start as int, end as int)) == s@.subrange(
                a as int,
                end as int,
            ),
            trim_end(s@.subrange(a as int, end as int)) == trim_end(
                s@.subrange(a as int, b as int),
            ),
        decreases b - a,
    {
        assert(s@.subrange(a as int, b as int).drop_last() =~= s@.subrange(
            a as int,
            b - 1,
        ));
        b = b - 1;
    }
    assert(trim_end(s@.subrange(a as int, b as int)) == s@.subrange(a as int, b as int));
    (a, b)
}

/// The characters of `text`, in order.
fn chars_of(text: &str) -> (out: Vec<char>)
    ensures
        out@ == text@,
{
    broadcast use vstd::string::group_string_axioms;

    let mut out: Vec<char> = Vec::new();
    for c in it: text.chars()
        invariant
            out@ == it.seq().take(it.index() as int),
    {
        out.push(c);
    }
    out
}

fn list_key_chars() -> (k: Vec<char>)
    ensures
        k@ == list_key(),
{
    let mut k: Vec<char> = Vec::new();
    k.push('"');
    k.push('l');
    k.push('i');
    k.push('s');
    k.push('t');
    k.push('"');
    k.push(':');
    assert(k@ =~= list_key());
    k
}

fn temp_key_chars() -> (k: Vec<char>)
    ensures
        k@ == temp_key(),
{
    let mut k: Vec<char> = Vec::new();
    k.push('"');
    k.push('t');
    k.push('e');
    k.push('m');
    k.push('p');
    k.push('"');
    k.push(':');
    k.push('{');
    assert(k@ =~= temp_key());
    k
}

fn close_key_chars() -> (k: Vec<char>)
    ensures
        k@ == close_key(),
{
    let mut k: Vec<char> = Vec::new();
    k.push('}');
    assert(k@ =~= close_key());
    k
}

fn day_key_chars() -> (k: Vec<char>)
    ensures
        k@ == day_key(),
{
    let mut k: Vec<char> = Vec::new();
    k.push('"');
    k.push('d');
    k.push('a');
    k.push('y');
    k.push('"');
    k.push(':');
    assert(k@ =~= day_key());
    k
}

/// The views of a sequence of strings.
pub open spec fn texts(v: Seq<String>) -> Seq<Seq<char>> {
    v.map_values(|t: String| t@)
}

/// The day temperatures of a daily forecast in OpenWeatherMap's JSON, as
/// the texts that stand after each `"day":`, trimmed and in order (see
/// `day_temperatures`). Turning each text into a number is left to the
/// caller.
pub fn extract_day_temperatures(json: &str) -> (temps: Vec<String>)
    ensures
        texts(temps@) == day_temperatures(json@),
{
    let s = chars_of(json);
    let n: usize = s.len();
    let list = list_key_chars();
    let temp = temp_key_chars();
    let close = close_key_chars();
    let day = day_key_chars();
    let mut temps: Vec<String> = Vec::new();
    let start: usize = match find_in(&s, &list, 0, n) {
        Some(l) => l,
        None => {
            assert(texts(temps@) =~= Seq::<Seq<char>>::empty());
            return temps;
        },
    };
    let mut from: usize = start;
    loop
        invariant
            s@ == json@,
            n == s@.len(),
            from <= n,
            list@ == list_key(),
            temp@ == temp_key(),
            close@ == close_key(),
            day@ == day_key(),
            first_in(s@, list_key(), 0, n as int) == Some(start as int),
            texts(temps@) + day_values_from(s@, from as int) == day_temperatures(s@),
        ensures
            texts(temps@) == day_temperatures(json@),
        decreases n - from,
    {
        let t: usize = match find_in(&s, &temp, from, n) {
            Some(t) => t,
            None => {
                assert(texts(temps@) =~= texts(temps@) + day_values_from(s@, from as int));
                break;
            },
        };
        proof {
            assert(is_first_in(s@, temp_key(), from as int, n as int, t as int));
        }
        let open: usize = t + 7;
        let c: usize = match find_in(&s, &close, open, n) {
            Some(c) => c,
            None => {
                assert(texts(temps@) =~= texts(temps@) + day_values_from(s@, from as int));
                break;
            },
        };
        proof {
            assert(is_first_in(s@, close_key(), open as int, n as int, c as int));
        }
        let ghost old_temps = texts(temps@);
        let ghost rest = day_values_from(s@, c + 1);
        match find_in(&s, &day, open, c + 1) {
            Some(d) => {
                proof {
                    assert(is_first_in(s@, day_key(), open as int, c + 1, d as int));
                }
                let value_start: usize = d + 6;
                let value_stop: usize = find_value_end(&s, value_start, c + 1);
                let (a, b) = trim_bounds(&s, value_start, value_stop);
                let text = json.substring_char(a, b).to_owned();
                temps.push(text);
                assert(texts(temps@) =~= old_temps.push(text@));
                assert(day_values_from(s@, from as int) == seq![text@] + rest);
                assert(texts(temps@) + rest =~= old_temps + (seq![text@] + rest));
            },
            None => {
                assert(day_values_from(s@, from as int) == rest);
            },
        }
        from = c + 1;
    }
    temps
}

} // verus!
