//! Strings taken as sequences of characters: building them, comparing them,
//! searching in them, rendering numbers, and keeping sorted lists of them.

use vstd::prelude::*;

verus! {

/// `String::push`: appends a character. Claimed, as its documentation
/// says: the string's characters become the old ones followed by `ch`.
pub assume_specification[ String::push ](s: &mut String, ch: char)
    ensures
        final(s)@ == old(s)@.push(ch),
;

/// The characters of a string slice, in order.
pub fn chars_of(s: &str) -> (v: Vec<char>)
    ensures
        v@ == s@,
{
    let mut v: Vec<char> = Vec::new();
    for c in it: s.chars()
        invariant
            v@ == it.seq().take(it.index() as int),
            it.seq() == s@,
    {
        v.push(c);
    }
    v
}

/// A string holding exactly the given characters.
pub fn from_chars(v: &[char]) -> (s: String)
    ensures
        s@ == v@,
{
    let mut s = String::new();
    let mut i: usize = 0;
    while i < v.len()
        invariant
            i <= v.len(),
            s@ == v@.take(i as int),
        decreases v.len() - i,
    {
        s.push(v[i]);
        assert(v@.take(i + 1) =~= v@.take(i as int).push(v@[i as int]));
        i = i + 1;
    }
    assert(v@.take(v.len() as int) =~= v@);
    s
}

/// `p` is a prefix of `s`.
pub open spec fn is_prefix(p: Seq<char>, s: Seq<char>) -> bool {
    p.len() <= s.len() && s.take(p.len() as int) == p
}

/// `x` is a suffix of `s`.
pub open spec fn is_suffix(x: Seq<char>, s: Seq<char>) -> bool {
    x.len() <= s.len() && s.skip(s.len() - x.len()) == x
}

/// Lexicographic order on character sequences, looking from position `i` on,
/// the earlier positions being taken as equal.
pub open spec fn lex_lt_from(a: Seq<char>, b: Seq<char>, i: int) -> bool
    decreases a.len() - i,
{
    if i < 0 || i >= a.len() {
        0 <= i < b.len()
    } else if i >= b.len() {
        false
    } else if a[i] < b[i] {
        true
    } else if a[i] > b[i] {
        false
    } else {
        lex_lt_from(a, b, i + 1)
    }
}

/// Strict lexicographic order on character sequences. Since UTF-8 keeps the
/// order of code points, it is the order of `String`'s byte-wise comparison.
pub open spec fn lex_lt(a: Seq<char>, b: Seq<char>) -> bool {
    lex_lt_from(a, b, 0)
}

/// Every element comes strictly before every later one.
pub open spec fn strictly_sorted(s: Seq<Seq<char>>) -> bool {
    forall|i: int, j: int| 0 <= i < j < s.len() ==> lex_lt(#[trigger] s[i], #[trigger] s[j])
}

proof fn lemma_lex_lt_from_irreflexive(a: Seq<char>, i: int)
    requires
        0 <= i,
    ensures
        !lex_lt_from(a, a, i),
    decreases a.len() - i,
{
    if i < a.len() {
        lemma_lex_lt_from_irreflexive(a, i + 1);
    }
}

proof fn lemma_lex_lt_from_transitive(a: Seq<char>, b: Seq<char>, c: Seq<char>, i: int)
    requires
        0 <= i,
        lex_lt_from(a, b, i),
        lex_lt_from(b, c, i),
    ensures
        lex_lt_from(a, c, i),
    decreases a.len() - i,
{
    if i < a.len() && i < b.len() && i < c.len() && a[i] == b[i] && b[i] == c[i] {
        lemma_lex_lt_from_transitive(a, b, c, i + 1);
    }
}

proof fn lemma_lex_lt_from_total(a: Seq<char>, b: Seq<char>, i: int)
    requires
        0 <= i <= a.len(),
        i <= b.len(),
        a.take(i) == b.take(i),
        !lex_lt_from(a, b, i),
        !lex_lt_from(b, a, i),
    ensures
        a == b,
    decreases a.len() - i,
{
    if i < a.len() {
        assert(a.take(i + 1) =~= a.take(i).push(a[i]));
        assert(b.take(i + 1) =~= b.take(i).push(b[i]));
        lemma_lex_lt_from_total(a, b, i + 1);
    } else {
        assert(a =~= a.take(i));
        assert(b =~= b.take(i));
    }
}

/// The lexicographic order is irreflexive.
pub proof fn lemma_lex_lt_irreflexive(a: Seq<char>)
    ensures
        !lex_lt(a, a),
{
    lemma_lex_lt_from_irreflexive(a, 0);
}

/// The lexicographic order is transitive.
pub proof fn lemma_lex_lt_transitive(a: Seq<char>, b: Seq<char>, c: Seq<char>)
    requires
        lex_lt(a, b),
        lex_lt(b, c),
    ensures
        lex_lt(a, c),
{
    lemma_lex_lt_from_transitive(a, b, c, 0);
}

/// Of two different sequences, one comes before the other.
pub proof fn lemma_lex_lt_total(a: Seq<char>, b: Seq<char>)
    ensures
        a == b || lex_lt(a, b) || lex_lt(b, a),
{
    if !lex_lt(a, b) && !lex_lt(b, a) {
        assert(a.take(0) =~= b.take(0));
        lemma_lex_lt_from_total(a, b, 0);
    }
}

/// Whether `a` comes strictly before `b`.
pub fn chars_lt(a: &Vec<char>, b: &Vec<char>) -> (r: bool)
    ensures
        r == lex_lt(a@, b@),
{
    let mut i: usize = 0;
    while i < a.len() && i < b.len()
        invariant
            i <= a.len(),
            i <= b.len(),
            lex_lt(a@, b@) == lex_lt_from(a@, b@, i as int),
        decreases a.len() - i,
    {
        if a[i] < b[i] {
            return true;
        }
        if a[i] > b[i] {
            return false;
        }
        i = i + 1;
    }
    i == a.len() && i < b.len()
}

/// Whether the string `a` comes strictly before `b`.
pub fn str_lt(a: &str, b: &str) -> (r: bool)
    ensures
        r == lex_lt(a@, b@),
{
    let ca = chars_of(a);
    let cb = chars_of(b);
    chars_lt(&ca, &cb)
}

/// Whether two strings hold the same characters.
pub fn str_eq(a: &str, b: &str) -> (r: bool)
    ensures
        r == (a@ == b@),
{
    let ca = chars_of(a);
    let cb = chars_of(b);
    if ca.len() != cb.len() {
        return false;
    }
    let mut i: usize = 0;
    while i < ca.len()
        invariant
            i <= ca.len(),
            ca.len() == cb.len(),
            ca@ == a@,
            cb@ == b@,
            forall|k: int| 0 <= k < i ==> ca@[k] == cb@[k],
        decreases ca.len() - i,
    {
        if ca[i] != cb[i] {
            return false;
        }
        i = i + 1;
    }
    assert(ca@ =~= cb@);
    true
}

/// Whether `p` is a prefix of `s`.
pub fn chars_starts_with(s: &Vec<char>, p: &Vec<char>) -> (r: bool)
    ensures
        r == is_prefix(p@, s@),
{
    if p.len() > s.len() {
        return false;
    }
    let mut i: usize = 0;
    while i < p.len()
        invariant
            i <= p.len() <= s.len(),
            forall|k: int| 0 <= k < i ==> s@[k] == p@[k],
        decreases p.len() - i,
    {
        if s[i] != p[i] {
            assert(s@.take(p.len() as int)[i as int] != p@[i as int]);
            return false;
        }
        i = i + 1;
    }
    assert(s@.take(p.len() as int) =~= p@);
    true
}

/// Whether `x` is a suffix of `s`.
pub fn chars_ends_with(s: &Vec<char>, x: &Vec<char>) -> (r: bool)
    ensures
        r == is_suffix(x@, s@),
{
    if x.len() > s.len() {
        return false;
    }
    let off = s.len() - x.len();
    let mut i: usize = 0;
    while i < x.len()
        invariant
            i <= x.len(),
            off + x.len() == s.len(),
            forall|k: int| 0 <= k < i ==> s@[off + k] == x@[k],
        decreases x.len() - i,
    {
        if s[off + i] != x[i] {
            assert(s@.skip(off as int)[i as int] != x@[i as int]);
            return false;
        }
        i = i + 1;
    }
    assert(s@.skip(off as int) =~= x@);
    true
}

/// Whether the string `s` starts with `p`.
pub fn str_starts_with(s: &str, p: &str) -> (r: bool)
    ensures
        r == is_prefix(p@, s@),
{
    let cs = chars_of(s);
    let cp = chars_of(p);
    chars_starts_with(&cs, &cp)
}

/// Whether the string `s` ends with `x`.
pub fn str_ends_with(s: &str, x: &str) -> (r: bool)
    ensures
        r == is_suffix(x@, s@),
{
    let cs = chars_of(s);
    let cx = chars_of(x);
    chars_ends_with(&cs, &cx)
}


/// A strictly sorted list holds each element once.
pub proof fn lemma_strictly_sorted_no_duplicates(s: Seq<Seq<char>>)
    requires
        strictly_sorted(s),
    ensures
        s.no_duplicates(),
{
    assert forall|i: int, j: int| 0 <= i < s.len() && 0 <= j < s.len() && i != j implies s[i] != s[j] by {
        if i < j {
            assert(lex_lt(s[i], s[j]));
        } else {
            assert(lex_lt(s[j], s[i]));
        }
        lemma_lex_lt_irreflexive(s[i]);
    }
}

/// The character sequences of a list of strings.
pub open spec fn views(v: Seq<String>) -> Seq<Seq<char>> {
    v.map_values(|s: String| s@)
}

/// Inserts `name` into a strictly sorted list, unless it is already there.
pub fn insert_sorted_unique(v: &mut Vec<String>, name: String)
    requires
        strictly_sorted(views(old(v)@)),
    ensures
        strictly_sorted(views(final(v)@)),
        views(final(v)@).to_set() == views(old(v)@).to_set().insert(name@),
        views(old(v)@).contains(name@) ==> final(v)@ == old(v)@,
{
    let ghost old_views = views(v@);
    let mut i: usize = 0;
    while i < v.len()
        invariant
            i <= v.len(),
            v@ == old(v)@,
            old_views == views(v@),
            strictly_sorted(old_views),
            forall|k: int| 0 <= k < i ==> lex_lt(#[trigger] old_views[k], name@),
        ensures
            i <= v.len(),
            v@ == old(v)@,
            forall|k: int| 0 <= k < i ==> lex_lt(#[trigger] old_views[k], name@),
            i < v.len() ==> !lex_lt(old_views[i as int], name@),
        decreases v.len() - i,
    {
        if !str_lt(v[i].as_str(), name.as_str()) {
            break;
        }
        i = i + 1;
    }
    if i < v.len() && str_eq(v[i].as_str(), name.as_str()) {
        assert(old_views[i as int] == name@);
        assert(old_views.contains(name@));
        assert(old_views.to_set().insert(name@) =~= old_views.to_set());
        return;
    }
    proof {
        if i < v.len() {
            lemma_lex_lt_total(old_views[i as int], name@);
            assert(lex_lt(name@, old_views[i as int]));
            assert forall|k: int| i <= k < old_views.len() implies lex_lt(name@, #[trigger] old_views[k]) by {
                if k > i {
                    lemma_lex_lt_transitive(name@, old_views[i as int], old_views[k]);
                }
            }
        }
        assert forall|k: int| 0 <= k < old_views.len() implies old_views[k] != name@ by {
            if k < i {
                lemma_lex_lt_irreflexive(name@);
            } else {
                lemma_lex_lt_irreflexive(name@);
            }
        }
    }
    let ghost name_view = name@;
    v.insert(i, name);
    let ghost new_views = views(v@);
    proof {
        assert(new_views =~= old_views.insert(i as int, name_view));
        assert forall|a: int, b: int| 0 <= a < b < new_views.len() implies lex_lt(
            #[trigger] new_views[a],
            #[trigger] new_views[b],
        ) by {
            if b < i {
            } else if a < i && b == i {
            } else if a < i {
                assert(new_views[b] == old_views[b - 1]);
                lemma_lex_lt_transitive(old_views[a], name_view, old_views[b - 1]);
            } else if a == i {
                assert(new_views[b] == old_views[b - 1]);
            } else {
                assert(new_views[a] == old_views[a - 1]);
                assert(new_views[b] == old_views[b - 1]);
            }
        }
        assert forall|x: Seq<char>| #[trigger] new_views.to_set().contains(x) <==> old_views.to_set().insert(name_view).contains(x) by {
            if new_views.contains(x) {
                let k = choose|k: int| 0 <= k < new_views.len() && new_views[k] == x;
                if k < i {
                    assert(old_views[k] == x);
                } else if k > i {
                    assert(old_views[k - 1] == x);
                }
            }
            if old_views.contains(x) {
                let k = choose|k: int| 0 <= k < old_views.len() && old_views[k] == x;
                if k < i {
                    assert(new_views[k] == x);
                } else {
                    assert(new_views[k + 1] == x);
                }
            }
            if x == name_view {
                assert(new_views[i as int] == x);
            }
        }
        assert(new_views.to_set() =~= old_views.to_set().insert(name_view));
    }
}


/// The decimal digit character of `d` (below ten).
pub open spec fn digit_char(d: nat) -> char {
    if d == 0 { '0' } else if d == 1 { '1' } else if d == 2 { '2' } else if d == 3 { '3' }
    else if d == 4 { '4' } else if d == 5 { '5' } else if d == 6 { '6' } else if d == 7 { '7' }
    else if d == 8 { '8' } else { '9' }
}

/// The decimal rendering of `n`, without leading zeros.
pub open spec fn decimal(n: nat) -> Seq<char>
    decreases n,
{
    if n < 10 {
        seq![digit_char(n)]
    } else {
        decimal(n / 10).push(digit_char(n % 10))
    }
}

fn digit(d: u64) -> (c: char)
    requires
        d < 10,
    ensures
        c == digit_char(d as nat),
{
    match d {
        0 => '0',
        1 => '1',
        2 => '2',
        3 => '3',
        4 => '4',
        5 => '5',
        6 => '6',
        7 => '7',
        8 => '8',
        _ => '9',
    }
}

/// Appends the decimal rendering of `n` to `s`.
pub fn push_decimal(s: &mut String, n: u64)
    ensures
        final(s)@ == old(s)@ + decimal(n as nat),
    decreases n,
{
    if n >= 10 {
        push_decimal(s, n / 10);
    }
    s.push(digit(n % 10));
    assert(old(s)@ + decimal(n as nat) =~= final(s)@) by {
        if n >= 10 {
            assert(decimal(n as nat) == decimal((n / 10) as nat).push(digit_char((n % 10) as nat)));
        }
    }
}

/// The decimal rendering of `n`, as a string.
pub fn decimal_string(n: u64) -> (s: String)
    ensures
        s@ == decimal(n as nat),
{
    let mut s = String::new();
    push_decimal(&mut s, n);
    assert(Seq::<char>::empty() + decimal(n as nat) =~= decimal(n as nat));
    s
}

/// Appends the characters of `t` to `s`.
pub fn push_str(s: &mut String, t: &str)
    ensures
        final(s)@ == old(s)@ + t@,
{
    let ct = chars_of(t);
    let mut i: usize = 0;
    while i < ct.len()
        invariant
            i <= ct.len(),
            ct@ == t@,
            s@ == old(s)@ + ct@.take(i as int),
        decreases ct.len() - i,
    {
        s.push(ct[i]);
        assert(ct@.take(i + 1) =~= ct@.take(i as int).push(ct@[i as int]));
        i = i + 1;
    }
    assert(ct@.take(ct.len() as int) =~= ct@);
}


/// The distinct strings of `names`, in strictly increasing order.
pub fn sort_unique(names: Vec<String>) -> (r: Vec<String>)
    ensures
        strictly_sorted(views(r@)),
        views(r@).to_set() == views(names@).to_set(),
{
    let mut r: Vec<String> = Vec::new();
    let ghost all = names@;
    for name in it: names.into_iter()
        invariant
            it.seq() == all,
            strictly_sorted(views(r@)),
            views(r@).to_set() == views(all.take(it.index() as int)).to_set(),
    {
        let ghost k = it.index() as int;
        let ghost nv = name@;
        proof {
            assert(views(all.take(k + 1)) =~= views(all.take(k)).push(nv));
            views(all.take(k)).lemma_push_to_set_commute(nv);
        }
        insert_sorted_unique(&mut r, name);
    }
    assert(all.take(all.len() as int) =~= all);
    r
}

/// A copy of a byte buffer.
pub fn clone_bytes(v: &Vec<u8>) -> (r: Vec<u8>)
    ensures
        r@ == v@,
{
    let r = v.clone();
    assert(r@ =~= v@);
    r
}


/// Whether `v` holds a string equal to `s`.
pub fn contains_str(v: &Vec<String>, s: &str) -> (r: bool)
    ensures
        r == views(v@).contains(s@),
{
    let mut i: usize = 0;
    while i < v.len()
        invariant
            i <= v.len(),
            forall|k: int| 0 <= k < i ==> v@[k]@ != s@,
        decreases v.len() - i,
    {
        if str_eq(v[i].as_str(), s) {
            assert(views(v@)[i as int] == s@);
            return true;
        }
        i = i + 1;
    }
    assert forall|k: int| 0 <= k < views(v@).len() implies views(v@)[k] != s@ by {
        assert(views(v@)[k] == v@[k]@);
    }
    false
}

/// A copy of a list of strings.
pub fn clone_strings(v: &Vec<String>) -> (r: Vec<String>)
    ensures
        views(r@) == views(v@),
{
    let mut r: Vec<String> = Vec::new();
    let mut i: usize = 0;
    while i < v.len()
        invariant
            i <= v.len(),
            views(r@) == views(v@).take(i as int),
        decreases v.len() - i,
    {
        let ghost before = r@;
        let c = v[i].clone();
        r.push(c);
        assert(views(r@) =~= views(before).push(c@));
        assert(views(v@).take(i + 1) =~= views(v@).take(i as int).push(v@[i as int]@));
        i = i + 1;
    }
    assert(views(v@).take(v.len() as int) =~= views(v@));
    r
}


/// The strings of two lists joined are those of each.
pub proof fn lemma_views_append_to_set(a: Seq<String>, b: Seq<String>)
    ensures
        views(a + b) == views(a) + views(b),
        views(a + b).to_set() == views(a).to_set() + views(b).to_set(),
{
    assert(views(a + b) =~= views(a) + views(b));
    vstd::seq_lib::seq_to_set_distributes_over_add(views(a), views(b));
}


/// The parts joined, with `sep` between each two.
pub open spec fn join(parts: Seq<Seq<char>>, sep: Seq<char>) -> Seq<char>
    decreases parts.len(),
{
    if parts.len() == 0 {
        Seq::empty()
    } else if parts.len() == 1 {
        parts[0]
    } else {
        join(parts.drop_last(), sep) + sep + parts.last()
    }
}

/// `parts.join(sep)`.
pub fn join_strings(parts: &Vec<String>, sep: &str) -> (s: String)
    ensures
        s@ == join(views(parts@), sep@),
{
    let mut s = String::new();
    let mut i: usize = 0;
    while i < parts.len()
        invariant
            i <= parts@.len(),
            s@ == join(views(parts@).take(i as int), sep@),
        decreases parts.len() - i,
    {
        if i > 0 {
            push_str(&mut s, sep);
        }
        push_str(&mut s, parts[i].as_str());
        proof {
            let t = views(parts@).take(i + 1);
            assert(t.drop_last() =~= views(parts@).take(i as int));
            if i == 0 {
                assert(s@ =~= t[0]);
            }
        }
        i = i + 1;
    }
    assert(views(parts@).take(parts@.len() as int) =~= views(parts@));
    s
}


/// `pat` occurs in `s`.
pub open spec fn occurs_in(pat: Seq<char>, s: Seq<char>) -> bool {
    exists|i: int| 0 <= i && i + pat.len() <= s.len() && #[trigger] s.subrange(i, i + pat.len()) == pat
}

/// Whether `pat` occurs in `s`.
pub fn str_contains(s: &str, pat: &str) -> (r: bool)
    ensures
        r == occurs_in(pat@, s@),
{
    let cs = chars_of(s);
    let cp = chars_of(pat);
    if cp.len() > cs.len() {
        return false;
    }
    let last = cs.len() - cp.len();
    let mut i: usize = 0;
    while i <= last
        invariant
            cs@ == s@,
            cp@ == pat@,
            last + cp.len() == cs.len(),
            i <= last + 1,
            forall|k: int| 0 <= k < i ==> #[trigger] cs@.subrange(k, k + cp@.len()) != cp@,
        decreases last + 1 - i,
    {
        let mut j: usize = 0;
        let mut same = true;
        while j < cp.len()
            invariant
                j <= cp.len(),
                i <= last,
                last + cp.len() == cs.len(),
                same == (forall|t: int| 0 <= t < j ==> cs@[i + t] == cp@[t]),
            decreases cp.len() - j,
        {
            if cs[i + j] != cp[j] {
                same = false;
            }
            j = j + 1;
        }
        if same {
            assert(cs@.subrange(i as int, i + cp@.len()) =~= cp@);
            return true;
        }
        assert(cs@.subrange(i as int, i + cp@.len()) != cp@) by {
            let t = choose|t: int| 0 <= t < cp@.len() && cs@[i + t] != cp@[t];
            assert(cs@.subrange(i as int, i + cp@.len())[t] != cp@[t]);
        }
        i = i + 1;
    }
    false
}

} // verus!
