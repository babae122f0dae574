use vstd::prelude::*;

verus! {

/// `needle` occurs in `hay` at position `at`.
pub open spec fn occurs_at(hay: Seq<char>, needle: Seq<char>, at: int) -> bool {
    0 <= at && at + needle.len() <= hay.len() && hay.subrange(at, at + needle.len()) == needle
}

/// `needle` occurs somewhere in `hay`. The empty sequence occurs in every
/// sequence.
pub open spec fn has_substring(hay: Seq<char>, needle: Seq<char>) -> bool {
    exists|at: int| occurs_at(hay, needle, at)
}

/// The characters of a string, in order.
pub fn to_chars(s: &str) -> (v: Vec<char>)
    ensures
        v@ == s@,
{
    let mut v: Vec<char> = Vec::new();
    for c in it: s.chars()
        invariant
            v@ == it.seq().take(it.index() as int),
            it.seq() == s@,
    {
        v.push(c);
    }
    v
}

/// Whether `needle` occurs in `hay` at position `at`.
fn matches_at(hay: &Vec<char>, needle: &Vec<char>, at: usize) -> (r: bool)
    requires
        at + needle@.len() <= hay@.len(),
    ensures
        r == occurs_at(hay@, needle@, at as int),
{
    let len = hay.len();
    let mut k: usize = 0;
    while k < needle.len()
        invariant
            0 <= k <= needle@.len(),
            at + needle@.len() <= hay@.len(),
            hay@.len() == len,
            forall|j: int| 0 <= j < k ==> hay@[at + j] == needle@[j],
        decreases needle.len() - k,
    {
        if hay[at + k] != needle[k] {
            assert(hay@.subrange(at as int, at + needle@.len())[k as int] != needle@[k as int]);
            return false;
        }
        k += 1;
    }
    assert(hay@.subrange(at as int, at + needle@.len()) =~= needle@);
    true
}

/// Whether `needle` occurs in `hay`.
pub fn contains(hay: &str, needle: &str) -> (r: bool)
    ensures
        r == has_substring(hay@, needle@),
{
    let h = to_chars(hay);
    let n = to_chars(needle);
    if n.len() > h.len() {
        return false;
    }
    let last = h.len() - n.len();
    let mut at: usize = 0;
    loop
        invariant
            0 <= at <= last,
            last == h@.len() - n@.len(),
            h@ == hay@,
            n@ == needle@,
            forall|j: int| 0 <= j < at ==> !occurs_at(h@, n@, j),
        decreases last - at,
    {
        if matches_at(&h, &n, at) {
            return true;
        }
        if at == last {
            return false;
        }
        at += 1;
    }
}

/// Whether two strings hold the same characters.
pub fn same_text(a: &str, b: &str) -> (r: bool)
    ensures
        r == (a@ == b@),
{
    let x = to_chars(a);
    let y = to_chars(b);
    if x.len() != y.len() {
        return false;
    }
    let mut k: usize = 0;
    while k < x.len()
        invariant
            0 <= k <= x@.len(),
            x@.len() == y@.len(),
            x@ == a@,
            y@ == b@,
            forall|j: int| 0 <= j < k ==> x@[j] == y@[j],
        decreases x.len() - k,
    {
        if x[k] != y[k] {
            assert(a@[k as int] != b@[k as int]);
            return false;
        }
        k += 1;
    }
    assert(x@ =~= y@);
    true
}

/// `prefix` stands at the start of `s`.
pub open spec fn is_prefix(s: Seq<char>, prefix: Seq<char>) -> bool {
    prefix.len() <= s.len() && s.subrange(0, prefix.len() as int) == prefix
}

/// Whether `s` starts with `prefix`.
pub fn starts_with(s: &str, prefix: &str) -> (r: bool)
    ensures
        r == is_prefix(s@, prefix@),
{
    let h = to_chars(s);
    let n = to_chars(prefix);
    if n.len() > h.len() {
        return false;
    }
    let r = matches_at(&h, &n, 0);
    r
}

/// Position of the first `c` in `s`, or the length of `s` where there is
/// none.
pub open spec fn first_index_of(s: Seq<char>, c: char) -> int
    decreases s.len(),
{
    if s.len() == 0 {
        0
    } else if s[0] == c {
        0
    } else {
        1 + first_index_of(s.skip(1), c)
    }
}

/// The first `c` of `s` stands at `first_index_of`, and nowhere before.
pub proof fn lemma_first_index_of(s: Seq<char>, c: char)
    ensures
        0 <= first_index_of(s, c) <= s.len(),
        first_index_of(s, c) < s.len() ==> s[first_index_of(s, c)] == c,
        forall|i: int| 0 <= i < first_index_of(s, c) ==> s[i] != c,
    decreases s.len(),
{
    if s.len() > 0 && s[0] != c {
        lemma_first_index_of(s.skip(1), c);
        assert forall|i: int| 0 <= i < first_index_of(s, c) implies s[i] != c by {
            if i > 0 {
                assert(s.skip(1)[i - 1] == s[i]);
            }
        }
    }
}

/// A position is the first `c` of `s` if `c` stands there and nowhere
/// before; the length of `s` is it if `c` stands nowhere.
pub proof fn lemma_first_index_is(s: Seq<char>, c: char, at: int)
    requires
        0 <= at <= s.len(),
        at < s.len() ==> s[at] == c,
        forall|i: int| 0 <= i < at ==> s[i] != c,
    ensures
        first_index_of(s, c) == at,
{
    lemma_first_index_of(s, c);
}

/// Position of the first `c` among the characters `s`, or their number
/// where there is none.
pub fn find_char(s: &Vec<char>, c: char) -> (at: usize)
    ensures
        at == first_index_of(s@, c),
        at <= s@.len(),
{
    let mut i: usize = 0;
    while i < s.len()
        invariant
            0 <= i <= s@.len(),
            forall|j: int| 0 <= j < i ==> s@[j] != c,
        decreases s.len() - i,
    {
        if s[i] == c {
            proof {
                lemma_first_index_is(s@, c, i as int);
            }
            return i;
        }
        i += 1;
    }
    proof {
        lemma_first_index_is(s@, c, i as int);
    }
    i
}

/// The part of `s` before its first `c`; all of `s` where it holds none.
pub open spec fn before_first(s: Seq<char>, c: char) -> Seq<char> {
    s.take(first_index_of(s, c))
}

/// The part of `s` before its first `c`.
pub fn head_before(s: &str, c: char) -> (r: String)
    ensures
        r@ == before_first(s@, c),
{
    let chars = to_chars(s);
    let at = find_char(&chars, c);
    proof {
        lemma_first_index_of(s@, c);
    }
    String::from_str(s.substring_char(0, at))
}

/// Number of characters at the end of `s` that satisfy `drop`, counted
/// back from the end as long as they do.
pub open spec fn trailing_run(s: Seq<char>, drop: spec_fn(char) -> bool) -> nat
    decreases s.len(),
{
    if s.len() > 0 && drop(s.last()) {
        1 + trailing_run(s.drop_last(), drop)
    } else {
        0
    }
}

/// Number of characters at the start of `s` that satisfy `drop`.
pub open spec fn leading_run(s: Seq<char>, drop: spec_fn(char) -> bool) -> nat
    decreases s.len(),
{
    if s.len() > 0 && drop(s[0]) {
        1 + leading_run(s.skip(1), drop)
    } else {
        0
    }
}

/// No more characters are counted at the end of a text than it has.
pub proof fn lemma_trailing_run_bound(s: Seq<char>, drop: spec_fn(char) -> bool)
    ensures
        trailing_run(s, drop) <= s.len(),
    decreases s.len(),
{
    if s.len() > 0 && drop(s.last()) {
        lemma_trailing_run_bound(s.drop_last(), drop);
    }
}

/// No more characters are counted at the start of a text than it has.
pub proof fn lemma_leading_run_bound(s: Seq<char>, drop: spec_fn(char) -> bool)
    ensures
        leading_run(s, drop) <= s.len(),
    decreases s.len(),
{
    if s.len() > 0 && drop(s[0]) {
        lemma_leading_run_bound(s.skip(1), drop);
    }
}

/// `s` without the characters at its start and at its end that satisfy
/// `drop`.
pub open spec fn stripped(s: Seq<char>, drop: spec_fn(char) -> bool) -> Seq<char> {
    let rest = s.skip(leading_run(s, drop) as int);
    rest.take(rest.len() - trailing_run(rest, drop))
}

/// `s` without the characters at its end that satisfy `drop`.
pub open spec fn stripped_end(s: Seq<char>, drop: spec_fn(char) -> bool) -> Seq<char> {
    s.take(s.len() - trailing_run(s, drop))
}

/// The test that picks `a` and `b`, which may be the same character.
pub open spec fn is_either(a: char, b: char) -> spec_fn(char) -> bool {
    |x: char| x == a || x == b
}

/// Number of characters among `s[from..to]`, counted from `from`, that are
/// `a` or `b`, as long as they are.
fn count_leading(s: &Vec<char>, from: usize, a: char, b: char) -> (n: usize)
    requires
        from <= s@.len(),
    ensures
        n == leading_run(s@.skip(from as int), is_either(a, b)),
        from + n <= s@.len(),
    decreases s@.len() - from,
{
    proof {
        lemma_leading_run_bound(s@.skip(from as int), is_either(a, b));
    }
    if from < s.len() && (s[from] == a || s[from] == b) {
        assert(s@.skip(from as int)[0] == s@[from as int]);
        assert(s@.skip(from as int).skip(1) =~= s@.skip(from + 1));
        let rest = count_leading(s, from + 1, a, b);
        rest + 1
    } else {
        if from < s.len() {
            assert(s@.skip(from as int)[0] == s@[from as int]);
        }
        0
    }
}

/// Number of characters at the end of `s[from..to]` that are `a` or `b`.
fn count_trailing(s: &Vec<char>, from: usize, to: usize, a: char, b: char) -> (n: usize)
    requires
        from <= to <= s@.len(),
    ensures
        n == trailing_run(s@.subrange(from as int, to as int), is_either(a, b)),
        from + n <= to,
    decreases to - from,
{
    proof {
        lemma_trailing_run_bound(s@.subrange(from as int, to as int), is_either(a, b));
    }
    if from < to && (s[to - 1] == a || s[to - 1] == b) {
        assert(s@.subrange(from as int, to as int).last() == s@[to - 1]);
        assert(s@.subrange(from as int, to as int).drop_last() =~= s@.subrange(
            from as int,
            to - 1,
        ));
        let rest = count_trailing(s, from, to - 1, a, b);
        rest + 1
    } else {
        if from < to {
            assert(s@.subrange(from as int, to as int).last() == s@[to - 1]);
        }
        0
    }
}

/// `s` without every `a` and `b` at its start and at its end.
pub fn strip_either(s: &str, a: char, b: char) -> (r: String)
    ensures
        r@ == stripped(s@, is_either(a, b)),
{
    let chars = to_chars(s);
    let lead = count_leading(&chars, 0, a, b);
    assert(chars@.skip(0) =~= chars@);
    let trail = count_trailing(&chars, lead, chars.len(), a, b);
    assert(chars@.subrange(lead as int, chars@.len() as int) =~= chars@.skip(lead as int));
    let r = String::from_str(s.substring_char(lead, chars.len() - trail));
    assert(r@ =~= stripped(s@, is_either(a, b)));
    r
}

/// `s` without every `c` at its end.
pub fn strip_end(s: &str, c: char) -> (r: String)
    ensures
        r@ == stripped_end(s@, is_either(c, c)),
{
    let chars = to_chars(s);
    let trail = count_trailing(&chars, 0, chars.len(), c, c);
    assert(chars@.subrange(0, chars@.len() as int) =~= chars@);
    let r = String::from_str(s.substring_char(0, chars.len() - trail));
    assert(r@ =~= stripped_end(s@, is_either(c, c)));
    r
}

/// The texts that a list of strings holds, in order.
pub open spec fn texts(list: Seq<String>) -> Seq<Seq<char>> {
    Seq::new(list.len(), |i: int| list[i]@)
}

/// Position of the first text equal to `s` in `list`, or the length of
/// `list` where there is none.
pub open spec fn position_in(list: Seq<Seq<char>>, s: Seq<char>) -> int
    decreases list.len(),
{
    if list.len() == 0 {
        0
    } else if list[0] == s {
        0
    } else {
        1 + position_in(list.skip(1), s)
    }
}

/// The first text equal to `s` stands at `position_in`, and nowhere
/// before.
pub proof fn lemma_position_in(list: Seq<Seq<char>>, s: Seq<char>)
    ensures
        0 <= position_in(list, s) <= list.len(),
        position_in(list, s) < list.len() ==> list[position_in(list, s)] == s,
        forall|i: int| 0 <= i < position_in(list, s) ==> list[i] != s,
    decreases list.len(),
{
    if list.len() > 0 && list[0] != s {
        lemma_position_in(list.skip(1), s);
        assert forall|i: int| 0 <= i < position_in(list, s) implies list[i] != s by {
            if i > 0 {
                assert(list.skip(1)[i - 1] == list[i]);
            }
        }
    }
}

/// A position is the first text equal to `s` if `s` stands there and
/// nowhere before; the length of `list` is it if `s` stands nowhere.
pub proof fn lemma_position_is(list: Seq<Seq<char>>, s: Seq<char>, at: int)
    requires
        0 <= at <= list.len(),
        at < list.len() ==> list[at] == s,
        forall|i: int| 0 <= i < at ==> list[i] != s,
    ensures
        position_in(list, s) == at,
{
    lemma_position_in(list, s);
}

/// Position of the first string of `list` that holds the text of `s`, or
/// the length of `list` where there is none.
pub fn find_text(list: &Vec<String>, s: &str) -> (at: usize)
    ensures
        at == position_in(texts(list@), s@),
{
    let mut i: usize = 0;
    while i < list.len()
        invariant
            0 <= i <= list@.len(),
            forall|j: int| 0 <= j < i ==> texts(list@)[j] != s@,
        decreases list.len() - i,
    {
        if same_text(list[i].as_str(), s) {
            proof {
                lemma_position_is(texts(list@), s@, i as int);
            }
            return i;
        }
        i += 1;
    }
    proof {
        lemma_position_is(texts(list@), s@, i as int);
    }
    i
}

/// `a` comes before `b` in the order of strings: at the first position
/// where the two differ `a` holds the smaller character, or `a` ends there
/// and `b` goes on.
pub open spec fn text_lt(a: Seq<char>, b: Seq<char>) -> bool
    decreases a.len(),
{
    if b.len() == 0 {
        false
    } else if a.len() == 0 {
        true
    } else if a[0] != b[0] {
        (a[0] as int) < (b[0] as int)
    } else {
        text_lt(a.skip(1), b.skip(1))
    }
}

/// Of two texts one comes before the other, or they are equal; never
/// two of these at once.
pub proof fn lemma_text_lt_trichotomy(a: Seq<char>, b: Seq<char>)
    ensures
        text_lt(a, b) || a == b || text_lt(b, a),
        !(text_lt(a, b) && text_lt(b, a)),
        !(text_lt(a, b) && a == b),
    decreases a.len(),
{
    if a.len() > 0 && b.len() > 0 {
        if a[0] == b[0] {
            lemma_text_lt_trichotomy(a.skip(1), b.skip(1));
            if a.skip(1) == b.skip(1) {
                assert(a =~= seq![a[0]] + a.skip(1));
                assert(b =~= seq![b[0]] + b.skip(1));
            }
        } else {
            assert(a[0] as int != b[0] as int);
        }
    } else if a.len() == 0 && b.len() == 0 {
        assert(a =~= b);
    }
}

/// The order of strings is transitive.
pub proof fn lemma_text_lt_transitive(a: Seq<char>, b: Seq<char>, c: Seq<char>)
    requires
        text_lt(a, b),
        text_lt(b, c),
    ensures
        text_lt(a, c),
    decreases a.len(),
{
    if a.len() > 0 && b.len() > 0 && c.len() > 0 && a[0] == b[0] && b[0] == c[0] {
        lemma_text_lt_transitive(a.skip(1), b.skip(1), c.skip(1));
    }
}

/// Whether `a` comes before `b` in the order of strings.
pub fn text_less(a: &Vec<char>, b: &Vec<char>) -> (r: bool)
    ensures
        r == text_lt(a@, b@),
{
    let mut i: usize = 0;
    assert(a@.skip(0) =~= a@ && b@.skip(0) =~= b@);
    loop
        invariant
            0 <= i <= a@.len(),
            i <= b@.len(),
            text_lt(a@, b@) == text_lt(a@.skip(i as int), b@.skip(i as int)),
        decreases a@.len() - i,
    {
        if i >= b.len() {
            return false;
        }
        if i >= a.len() {
            return true;
        }
        assert(a@.skip(i as int)[0] == a@[i as int]);
        assert(b@.skip(i as int)[0] == b@[i as int]);
        if a[i] != b[i] {
            return a[i] < b[i];
        }
        assert(a@.skip(i as int).skip(1) =~= a@.skip(i + 1));
        assert(b@.skip(i as int).skip(1) =~= b@.skip(i + 1));
        i += 1;
    }
}

/// Each text of the list comes before the next.
pub open spec fn is_ascending(list: Seq<Seq<char>>) -> bool {
    forall|i: int, j: int| 0 <= i < j < list.len() ==> text_lt(list[i], list[j])
}

/// Number of texts at the start of `list` that come before `s`.
pub open spec fn insert_point(list: Seq<Seq<char>>, s: Seq<char>) -> int
    decreases list.len(),
{
    if list.len() == 0 || !text_lt(list[0], s) {
        0
    } else {
        1 + insert_point(list.skip(1), s)
    }
}

/// The texts before the insert point come before `s`; the text at the
/// insert point does not.
pub proof fn lemma_insert_point(list: Seq<Seq<char>>, s: Seq<char>)
    ensures
        0 <= insert_point(list, s) <= list.len(),
        forall|i: int| 0 <= i < insert_point(list, s) ==> text_lt(list[i], s),
        insert_point(list, s) < list.len() ==> !text_lt(list[insert_point(list, s)], s),
    decreases list.len(),
{
    if list.len() > 0 && text_lt(list[0], s) {
        lemma_insert_point(list.skip(1), s);
        assert forall|i: int| 0 <= i < insert_point(list, s) implies text_lt(list[i], s) by {
            if i > 0 {
                assert(list.skip(1)[i - 1] == list[i]);
            }
        }
    }
}

/// A position is the insert point if every text before it comes before
/// `s` and the text at it does not.
pub proof fn lemma_insert_point_is(list: Seq<Seq<char>>, s: Seq<char>, at: int)
    requires
        0 <= at <= list.len(),
        forall|i: int| 0 <= i < at ==> text_lt(list[i], s),
        at < list.len() ==> !text_lt(list[at], s),
    ensures
        insert_point(list, s) == at,
{
    lemma_insert_point(list, s);
}

/// The list with `s` put in at its insert point, unless `s` stands there
/// already.
pub open spec fn sorted_insert(list: Seq<Seq<char>>, s: Seq<char>) -> Seq<Seq<char>> {
    let p = insert_point(list, s);
    if p < list.len() && list[p] == s {
        list
    } else {
        list.insert(p, s)
    }
}

/// Putting a text into an ascending list keeps the list ascending, and the
/// list then holds the text and what it held before, nothing else.
pub proof fn lemma_sorted_insert(list: Seq<Seq<char>>, s: Seq<char>)
    requires
        is_ascending(list),
    ensures
        is_ascending(sorted_insert(list, s)),
        sorted_insert(list, s).contains(s),
        forall|t: Seq<char>| list.contains(t) ==> sorted_insert(list, s).contains(t),
        forall|t: Seq<char>| sorted_insert(list, s).contains(t) ==> t == s || list.contains(t),
{
    let p = insert_point(list, s);
    let out = sorted_insert(list, s);
    lemma_insert_point(list, s);
    if p < list.len() && list[p] == s {
        assert(out[p] == s);
    } else {
        assert(out[p] == s);
        assert forall|i: int, j: int| 0 <= i < j < out.len() implies text_lt(out[i], out[j]) by {
            if j < p {
                assert(out[i] == list[i] && out[j] == list[j]);
            } else if j == p {
                assert(out[i] == list[i]);
            } else if i < p {
                assert(out[i] == list[i] && out[j] == list[j - 1]);
            } else if i == p {
                assert(out[j] == list[j - 1]);
                lemma_text_lt_trichotomy(list[p], s);
                if j - 1 > p {
                    assert(text_lt(list[p], list[j - 1]));
                    lemma_text_lt_transitive(s, list[p], list[j - 1]);
                }
            } else {
                assert(out[i] == list[i - 1] && out[j] == list[j - 1]);
            }
        }
        assert forall|t: Seq<char>| list.contains(t) implies out.contains(t) by {
            let k = choose|k: int| 0 <= k < list.len() && list[k] == t;
            if k < p {
                assert(out[k] == t);
            } else {
                assert(out[k + 1] == t);
            }
        }
        assert forall|t: Seq<char>| out.contains(t) implies t == s || list.contains(t) by {
            let k = choose|k: int| 0 <= k < out.len() && out[k] == t;
            if k < p {
                assert(list[k] == t);
            } else if k > p {
                assert(list[k - 1] == t);
            }
        }
    }
}

/// Puts a text into a list at its insert point, unless it stands there
/// already.
pub fn insert_sorted(list: &mut Vec<String>, s: &str)
    ensures
        texts(final(list)@) == sorted_insert(texts(old(list)@), s@),
{
    let chars = to_chars(s);
    let ghost before = texts(list@);
    let mut p: usize = 0;
    while p < list.len()
        invariant
            0 <= p <= list@.len(),
            texts(list@) == before,
            chars@ == s@,
            forall|i: int| 0 <= i < p ==> text_lt(before[i], s@),
        ensures
            0 <= p <= list@.len(),
            texts(list@) == before,
            insert_point(before, s@) == p || p >= list@.len(),
            forall|i: int| 0 <= i < p ==> text_lt(before[i], s@),
        decreases list.len() - p,
    {
        let here = to_chars(list[p].as_str());
        assert(before[p as int] == here@);
        if !text_less(&here, &chars) {
            proof {
                lemma_insert_point_is(before, s@, p as int);
            }
            break;
        }
        p += 1;
    }
    proof {
        if p >= list.len() {
            lemma_insert_point_is(before, s@, p as int);
        }
    }
    if p < list.len() && same_text(list[p].as_str(), s) {
        assert(before[p as int] == s@);
    } else {
        if p < list.len() {
            assert(before[p as int] == list@[p as int]@);
        }
        list.insert(p, String::from_str(s));
        assert(texts(list@) =~= before.insert(p as int, s@));
    }
}

/// A text without the white space at its start and at its end, as the
/// standard library trims it.
pub uninterp spec fn trimmed(s: Seq<char>) -> Seq<char>;

/// `str::trim` of the standard library: the result is the argument without
/// leading and trailing white space, and depends on nothing else.
#[verifier::external_body]
pub(crate) fn trim(s: &str) -> (r: String)
    ensures
        r@ == trimmed(s@),
{
    s.trim().to_string()
}

/// A text padded on the left with `0` to two characters; a text of two
/// characters or more stays as it is.
pub open spec fn padded2(s: Seq<char>) -> Seq<char> {
    if s.len() >= 2 {
        s
    } else if s.len() == 1 {
        "0"@ + s
    } else {
        "0"@ + "0"@
    }
}

/// Pads a text on the left with `0` to two characters.
pub fn pad2(s: &str) -> (r: String)
    ensures
        r@ == padded2(s@),
{
    let n = s.unicode_len();
    if n >= 2 {
        String::from_str(s)
    } else if n == 1 {
        let mut r = String::from_str("0");
        r.append(s);
        r
    } else {
        let mut r = String::from_str("0");
        r.append("0");
        assert(s@ =~= Seq::empty());
        r
    }
}

} // verus!
