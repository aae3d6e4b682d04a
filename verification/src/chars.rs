//! Character and string utilities shared by the parsing and editing
//! modules: conversions between `&str`/`String` and `Vec<char>`, and
//! whitespace trimming and splitting over character sequences.

use vstd::prelude::*;

verus! {

/// The whitespace characters the shell's parsers recognise: the ASCII
/// set — space, tab, line feed and carriage return. This is a deliberate
/// restriction: other Unicode whitespace is treated as an ordinary
/// character by tokenization, trimming and word splitting.
pub open spec fn is_shell_space(c: char) -> bool {
    c == ' ' || c == '\t' || c == '\n' || c == '\r'
}

/// Executable test for [`is_shell_space`].
pub fn is_space_char(c: char) -> (r: bool)
    ensures
        r == is_shell_space(c),
{
    c == ' ' || c == '\t' || c == '\n' || c == '\r'
}

/// Relies on `String::push`: appends one character to the string.
#[verifier::external_body]
pub fn push_char(s: &mut String, c: char)
    ensures
        final(s)@ == old(s)@.push(c),
{
    s.push(c);
}

/// The characters of a string slice, in order.
pub fn str_to_chars(s: &str) -> (r: Vec<char>)
    ensures
        r@ == s@,
{
    let n = s.unicode_len();
    let mut r: Vec<char> = Vec::new();
    let mut i: usize = 0;
    while i < n
        invariant
            i <= n,
            n == s@.len(),
            r@ == s@.subrange(0, i as int),
        decreases n - i,
    {
        r.push(s.get_char(i));
        i = i + 1;
        assert(r@ =~= s@.subrange(0, i as int));
    }
    assert(r@ =~= s@);
    r
}

/// The string holding exactly the given characters.
pub fn chars_to_string(v: &Vec<char>) -> (r: String)
    ensures
        r@ == v@,
{
    let mut r = String::new();
    let mut i: usize = 0;
    while i < v.len()
        invariant
            i <= v@.len(),
            r@ == v@.subrange(0, i as int),
        decreases v@.len() - i,
    {
        push_char(&mut r, v[i]);
        i = i + 1;
        assert(r@ =~= v@.subrange(0, i as int));
    }
    assert(r@ =~= v@);
    r
}

/// Character-wise equality of two string slices.
pub fn str_eq(a: &str, b: &str) -> (r: bool)
    ensures
        r == (a@ == b@),
{
    let na = a.unicode_len();
    let nb = b.unicode_len();
    if na != nb {
        return false;
    }
    let mut i: usize = 0;
    while i < na
        invariant
            i <= na,
            na == a@.len(),
            na == b@.len(),
            a@.subrange(0, i as int) == b@.subrange(0, i as int),
        decreases na - i,
    {
        if a.get_char(i) != b.get_char(i) {
            assert(a@[i as int] != b@[i as int]);
            return false;
        }
        i = i + 1;
        assert(a@.subrange(0, i as int) =~= b@.subrange(0, i as int));
    }
    assert(a@.subrange(0, na as int) =~= a@);
    assert(b@.subrange(0, na as int) =~= b@);
    assert(a@ =~= b@);
    true
}

/// Character-wise equality of two character vectors.
pub fn chars_eq(a: &Vec<char>, b: &Vec<char>) -> (r: bool)
    ensures
        r == (a@ == b@),
{
    if a.len() != b.len() {
        return false;
    }
    let mut i: usize = 0;
    while i < a.len()
        invariant
            i <= a@.len(),
            a@.len() == b@.len(),
            a@.subrange(0, i as int) == b@.subrange(0, i as int),
        decreases a@.len() - i,
    {
        if a[i] != b[i] {
            return false;
        }
        i = i + 1;
        assert(a@.subrange(0, i as int) =~= b@.subrange(0, i as int));
    }
    assert(a@.subrange(0, a@.len() as int) =~= a@);
    assert(b@.subrange(0, b@.len() as int) =~= b@);
    assert(a@ =~= b@);
    true
}

/// Whether `p` is a prefix of `v`.
pub fn chars_prefix(v: &Vec<char>, p: &Vec<char>) -> (r: bool)
    ensures
        r == p@.is_prefix_of(v@),
{
    if p.len() > v.len() {
        return false;
    }
    let mut i: usize = 0;
    while i < p.len()
        invariant
            i <= p@.len(),
            p@.len() <= v@.len(),
            p@.subrange(0, i as int) == v@.subrange(0, i as int),
        decreases p@.len() - i,
    {
        if p[i] != v[i] {
            assert(p@[i as int] != v@[i as int]);
            return false;
        }
        i = i + 1;
        assert(p@.subrange(0, i as int) =~= v@.subrange(0, i as int));
    }
    assert(p@.subrange(0, p@.len() as int) =~= p@);
    true
}

/// Whether `s` is a suffix of `v`.
pub fn chars_suffix(v: &Vec<char>, s: &Vec<char>) -> (r: bool)
    ensures
        r == s@.is_suffix_of(v@),
{
    if s.len() > v.len() {
        return false;
    }
    let nv = v.len();
    let off = nv - s.len();
    let mut i: usize = 0;
    while i < s.len()
        invariant
            i <= s@.len(),
            nv == v@.len(),
            off == v@.len() - s@.len(),
            s@.subrange(0, i as int) == v@.subrange(off as int, off + i),
        decreases s@.len() - i,
    {
        assert(off + i < nv);
        if s[i] != v[off + i] {
            assert(s@[i as int] != v@[off + i]);
            return false;
        }
        i = i + 1;
        assert(s@.subrange(0, i as int) =~= v@.subrange(off as int, off + i));
    }
    assert(s@.subrange(0, s@.len() as int) =~= s@);
    assert(v@.subrange(off as int, off + s@.len()) =~= v@.subrange(
        v@.len() - s@.len(),
        v@.len() as int,
    ));
    true
}

/// Whether the character `c` occurs in `v`.
pub fn chars_contain(v: &Vec<char>, c: char) -> (r: bool)
    ensures
        r == v@.contains(c),
{
    let mut i: usize = 0;
    while i < v.len()
        invariant
            i <= v@.len(),
            forall|j: int| 0 <= j < i ==> v@[j] != c,
        decreases v@.len() - i,
    {
        if v[i] == c {
            return true;
        }
        i = i + 1;
    }
    false
}

/// The sequence with leading shell whitespace removed.
pub open spec fn trim_front(s: Seq<char>) -> Seq<char>
    decreases s.len(),
{
    if s.len() > 0 && is_shell_space(s[0]) {
        trim_front(s.drop_first())
    } else {
        s
    }
}

/// The sequence with trailing shell whitespace removed.
pub open spec fn trim_back(s: Seq<char>) -> Seq<char>
    decreases s.len(),
{
    if s.len() > 0 && is_shell_space(s.last()) {
        trim_back(s.drop_last())
    } else {
        s
    }
}

/// The sequence with shell whitespace removed from both ends.
pub open spec fn trim_spec(s: Seq<char>) -> Seq<char> {
    trim_back(trim_front(s))
}

proof fn lemma_trim_front_step(s: Seq<char>, i: int)
    requires
        0 <= i < s.len(),
        forall|j: int| 0 <= j < i ==> is_shell_space(s[j]),
        !is_shell_space(s[i]),
    ensures
        trim_front(s) == s.subrange(i, s.len() as int),
    decreases i,
{
    if i == 0 {
        assert(trim_front(s) == s);
        assert(s.subrange(0, s.len() as int) =~= s);
    } else {
        let t = s.drop_first();
        assert(trim_front(s) == trim_front(t));
        lemma_trim_front_step(t, i - 1);
        assert(t.subrange(i - 1, t.len() as int) =~= s.subrange(i, s.len() as int));
    }
}

proof fn lemma_trim_front_all(s: Seq<char>)
    requires
        forall|j: int| 0 <= j < s.len() ==> is_shell_space(s[j]),
    ensures
        trim_front(s) == Seq::<char>::empty(),
    decreases s.len(),
{
    if s.len() == 0 {
        assert(s =~= Seq::<char>::empty());
    } else {
        lemma_trim_front_all(s.drop_first());
    }
}

proof fn lemma_trim_back_step(s: Seq<char>, j: int)
    requires
        0 <= j < s.len(),
        forall|k: int| j < k < s.len() ==> is_shell_space(s[k]),
        !is_shell_space(s[j]),
    ensures
        trim_back(s) == s.subrange(0, j + 1),
    decreases s.len(),
{
    if j == s.len() - 1 {
        assert(trim_back(s) == s);
        assert(s.subrange(0, s.len() as int) =~= s);
    } else {
        let t = s.drop_last();
        assert(is_shell_space(s.last()));
        assert(trim_back(s) == trim_back(t));
        assert(forall|k: int| j < k < t.len() ==> is_shell_space(t[k]));
        lemma_trim_back_step(t, j);
        assert(t.subrange(0, j + 1) =~= s.subrange(0, j + 1));
    }
}

/// The vector with shell whitespace removed from both ends.
pub fn trim_chars(v: &Vec<char>) -> (r: Vec<char>)
    ensures
        r@ == trim_spec(v@),
{
    let mut i: usize = 0;
    while i < v.len() && is_space_char(v[i])
        invariant
            i <= v@.len(),
            forall|j: int| 0 <= j < i ==> is_shell_space(v@[j]),
        decreases v@.len() - i,
    {
        i = i + 1;
    }
    if i == v.len() {
        proof {
            lemma_trim_front_all(v@);
        }
        let r: Vec<char> = Vec::new();
        assert(r@ =~= trim_spec(v@));
        return r;
    }
    proof {
        lemma_trim_front_step(v@, i as int);
    }
    // v[i] is not whitespace, so trimming from the back stops at or after i.
    let mut j: usize = v.len();
    while j > i + 1 && is_space_char(v[j - 1])
        invariant
            i < j <= v@.len(),
            !is_shell_space(v@[i as int]),
            forall|k: int| j <= k < v@.len() ==> is_shell_space(v@[k]),
        decreases j,
    {
        j = j - 1;
    }
    proof {
        let t = v@.subrange(i as int, v@.len() as int);
        assert(!is_shell_space(t[j - 1 - i]));
        assert(forall|k: int| j - i - 1 < k < t.len() ==> is_shell_space(t[k]));
        lemma_trim_back_step(t, j - 1 - i);
        assert(t.subrange(0, j - i) =~= v@.subrange(i as int, j as int));
    }
    let mut r: Vec<char> = Vec::new();
    let mut k: usize = i;
    while k < j
        invariant
            i <= k <= j <= v@.len(),
            r@ == v@.subrange(i as int, k as int),
        decreases j - k,
    {
        r.push(v[k]);
        k = k + 1;
        assert(r@ =~= v@.subrange(i as int, k as int));
    }
    r
}

/// The sequence with every leading and trailing occurrence of `c` removed.
pub open spec fn trim_char_front(s: Seq<char>, c: char) -> Seq<char>
    decreases s.len(),
{
    if s.len() > 0 && s[0] == c {
        trim_char_front(s.drop_first(), c)
    } else {
        s
    }
}

/// The sequence with trailing occurrences of `c` removed.
pub open spec fn trim_char_back(s: Seq<char>, c: char) -> Seq<char>
    decreases s.len(),
{
    if s.len() > 0 && s.last() == c {
        trim_char_back(s.drop_last(), c)
    } else {
        s
    }
}

/// The sequence with occurrences of `c` removed from both ends.
pub open spec fn trim_char_spec(s: Seq<char>, c: char) -> Seq<char> {
    trim_char_back(trim_char_front(s, c), c)
}

proof fn lemma_trim_char_front_step(s: Seq<char>, c: char, i: int)
    requires
        0 <= i < s.len(),
        forall|j: int| 0 <= j < i ==> s[j] == c,
        s[i] != c,
    ensures
        trim_char_front(s, c) == s.subrange(i, s.len() as int),
    decreases i,
{
    if i == 0 {
        assert(s.subrange(0, s.len() as int) =~= s);
    } else {
        let t = s.drop_first();
        lemma_trim_char_front_step(t, c, i - 1);
        assert(t.subrange(i - 1, t.len() as int) =~= s.subrange(i, s.len() as int));
    }
}

proof fn lemma_trim_char_front_all(s: Seq<char>, c: char)
    requires
        forall|j: int| 0 <= j < s.len() ==> s[j] == c,
    ensures
        trim_char_front(s, c) == Seq::<char>::empty(),
    decreases s.len(),
{
    if s.len() == 0 {
        assert(s =~= Seq::<char>::empty());
    } else {
        lemma_trim_char_front_all(s.drop_first(), c);
    }
}

proof fn lemma_trim_char_back_step(s: Seq<char>, c: char, j: int)
    requires
        0 <= j < s.len(),
        forall|k: int| j < k < s.len() ==> s[k] == c,
        s[j] != c,
    ensures
        trim_char_back(s, c) == s.subrange(0, j + 1),
    decreases s.len(),
{
    if j == s.len() - 1 {
        assert(s.subrange(0, s.len() as int) =~= s);
    } else {
        let t = s.drop_last();
        assert(forall|k: int| j < k < t.len() ==> t[k] == c);
        lemma_trim_char_back_step(t, c, j);
        assert(t.subrange(0, j + 1) =~= s.subrange(0, j + 1));
    }
}

/// The vector with every leading and trailing occurrence of `c` removed.
pub fn trim_char(v: &Vec<char>, c: char) -> (r: Vec<char>)
    ensures
        r@ == trim_char_spec(v@, c),
{
    let mut i: usize = 0;
    while i < v.len() && v[i] == c
        invariant
            i <= v@.len(),
            forall|j: int| 0 <= j < i ==> v@[j] == c,
        decreases v@.len() - i,
    {
        i = i + 1;
    }
    if i == v.len() {
        proof {
            lemma_trim_char_front_all(v@, c);
        }
        let r: Vec<char> = Vec::new();
        assert(r@ =~= trim_char_spec(v@, c));
        return r;
    }
    proof {
        lemma_trim_char_front_step(v@, c, i as int);
    }
    let mut j: usize = v.len();
    while j > i + 1 && v[j - 1] == c
        invariant
            i < j <= v@.len(),
            v@[i as int] != c,
            forall|k: int| j <= k < v@.len() ==> v@[k] == c,
        decreases j,
    {
        j = j - 1;
    }
    proof {
        let t = v@.subrange(i as int, v@.len() as int);
        assert(t[j - 1 - i] != c);
        assert(forall|k: int| j - i - 1 < k < t.len() ==> t[k] == c);
        lemma_trim_char_back_step(t, c, j - 1 - i);
        assert(t.subrange(0, j - i) =~= v@.subrange(i as int, j as int));
    }
    let mut r: Vec<char> = Vec::new();
    let mut k: usize = i;
    while k < j
        invariant
            i <= k <= j <= v@.len(),
            r@ == v@.subrange(i as int, k as int),
        decreases j - k,
    {
        r.push(v[k]);
        k = k + 1;
        assert(r@ =~= v@.subrange(i as int, k as int));
    }
    r
}

/// The views of a sequence of character vectors.
pub open spec fn charss_view(vs: Seq<Vec<char>>) -> Seq<Seq<char>> {
    Seq::new(vs.len(), |i: int| vs[i]@)
}

/// One step of splitting on shell whitespace: `parts` are the finished
/// words, `buf` the word being read.
pub open spec fn ws_step(parts: Seq<Seq<char>>, buf: Seq<char>, c: char) -> (Seq<Seq<char>>, Seq<
    char,
>) {
    if is_shell_space(c) {
        if buf.len() > 0 {
            (parts.push(buf), Seq::<char>::empty())
        } else {
            (parts, buf)
        }
    } else {
        (parts, buf.push(c))
    }
}

pub open spec fn ws_run(s: Seq<char>) -> (Seq<Seq<char>>, Seq<char>)
    decreases s.len(),
{
    if s.len() == 0 {
        (Seq::<Seq<char>>::empty(), Seq::<char>::empty())
    } else {
        let st = ws_run(s.drop_last());
        ws_step(st.0, st.1, s.last())
    }
}

/// The whitespace-separated words of `s`, in order, without empties.
pub open spec fn split_ws(s: Seq<char>) -> Seq<Seq<char>> {
    let st = ws_run(s);
    if st.1.len() > 0 {
        st.0.push(st.1)
    } else {
        st.0
    }
}

/// Splits a character vector on shell whitespace.
pub fn split_ws_chars(v: &Vec<char>) -> (r: Vec<Vec<char>>)
    ensures
        charss_view(r@) == split_ws(v@),
{
    let mut parts: Vec<Vec<char>> = Vec::new();
    let mut buf: Vec<char> = Vec::new();
    let mut i: usize = 0;
    while i < v.len()
        invariant
            i <= v@.len(),
            ws_run(v@.subrange(0, i as int)) == (charss_view(parts@), buf@),
        decreases v@.len() - i,
    {
        let ghost pre = v@.subrange(0, i as int);
        let c = v[i];
        if is_space_char(c) {
            if buf.len() > 0 {
                let done = buf;
                buf = Vec::new();
                parts.push(done);
                assert(charss_view(parts@) =~= ws_run(pre).0.push(ws_run(pre).1));
            }
        } else {
            buf.push(c);
        }
        i = i + 1;
        proof {
            let cur = v@.subrange(0, i as int);
            assert(cur.drop_last() =~= pre);
            assert(cur.last() == c);
        }
    }
    assert(v@.subrange(0, v@.len() as int) =~= v@);
    if buf.len() > 0 {
        parts.push(buf);
        assert(charss_view(parts@) =~= ws_run(v@).0.push(ws_run(v@).1));
    }
    parts
}

/// The words joined by `sep`: empty for no words, otherwise the words in
/// order with one separator between neighbours.
pub open spec fn join_with(parts: Seq<Seq<char>>, sep: Seq<char>) -> Seq<char>
    decreases parts.len(),
{
    if parts.len() == 0 {
        Seq::<char>::empty()
    } else if parts.len() == 1 {
        parts[0]
    } else {
        join_with(parts.drop_last(), sep) + sep + parts.last()
    }
}

/// Joins strings with a separator string.
pub fn join_strings(parts: &Vec<String>, sep: &str) -> (r: String)
    ensures
        r@ == join_with(parts.deep_view(), sep@),
{
    let mut r = String::new();
    let mut i: usize = 0;
    while i < parts.len()
        invariant
            i <= parts@.len(),
            r@ == join_with(parts.deep_view().subrange(0, i as int), sep@),
        decreases parts@.len() - i,
    {
        let ghost pre = parts.deep_view().subrange(0, i as int);
        if i > 0 {
            r.append(sep);
        }
        r.append(parts[i].as_str());
        i = i + 1;
        proof {
            let cur = parts.deep_view().subrange(0, i as int);
            assert(cur.drop_last() =~= pre);
            assert(cur.last() == parts.deep_view()[i - 1]);
        }
    }
    assert(parts.deep_view().subrange(0, parts@.len() as int) =~= parts.deep_view());
    r
}

/// Joins the character vectors from index `from` on with a one-character
/// separator.
pub fn join_chars_from(parts: &Vec<Vec<char>>, from: usize, sep: char) -> (r: Vec<char>)
    requires
        from <= parts@.len(),
    ensures
        r@ == join_with(charss_view(parts@).subrange(from as int, parts@.len() as int), seq![sep]),
{
    let mut r: Vec<char> = Vec::new();
    let mut i: usize = from;
    while i < parts.len()
        invariant
            from <= i <= parts@.len(),
            r@ == join_with(charss_view(parts@).subrange(from as int, i as int), seq![sep]),
        decreases parts@.len() - i,
    {
        let ghost pre = charss_view(parts@).subrange(from as int, i as int);
        if i > from {
            r.push(sep);
        }
        let mut j: usize = 0;
        let ghost rpre = r@;
        while j < parts[i].len()
            invariant
                0 <= i < parts@.len(),
                j <= parts@[i as int]@.len(),
                r@ == rpre + parts@[i as int]@.subrange(0, j as int),
            decreases parts@[i as int]@.len() - j,
        {
            r.push(parts[i][j]);
            j = j + 1;
            assert(r@ =~= rpre + parts@[i as int]@.subrange(0, j as int));
        }
        assert(parts@[i as int]@.subrange(0, parts@[i as int]@.len() as int) =~= parts@[i as int]@);
        i = i + 1;
        proof {
            let cur = charss_view(parts@).subrange(from as int, i as int);
            assert(cur.drop_last() =~= pre);
            assert(cur.last() == parts@[i - 1]@);
            if i - 1 == from {
                assert(r@ =~= cur.last());
            } else {
                assert(r@ =~= join_with(pre, seq![sep]) + seq![sep] + cur.last());
            }
        }
    }
    assert(charss_view(parts@).subrange(from as int, parts@.len() as int) =~= charss_view(
        parts@,
    ).subrange(from as int, i as int));
    r
}

/// The value of the first pair whose name matches, if any.
pub open spec fn lookup_pairs(ps: Seq<(Seq<char>, Seq<char>)>, name: Seq<char>) -> Option<
    Seq<char>,
>
    decreases ps.len(),
{
    if ps.len() == 0 {
        None
    } else if ps[0].0 == name {
        Some(ps[0].1)
    } else {
        lookup_pairs(ps.drop_first(), name)
    }
}

/// Looks a name up in a list of name/value pairs, first match wins.
pub fn lookup_pair(ps: &Vec<(String, String)>, name: &Vec<char>) -> (r: Option<String>)
    ensures
        r.deep_view() == lookup_pairs(ps.deep_view(), name@),
{
    let mut i: usize = 0;
    assert(ps.deep_view().subrange(0, ps@.len() as int) =~= ps.deep_view());
    while i < ps.len()
        invariant
            i <= ps@.len(),
            lookup_pairs(ps.deep_view(), name@) == lookup_pairs(
                ps.deep_view().subrange(i as int, ps@.len() as int),
                name@,
            ),
        decreases ps@.len() - i,
    {
        let ghost rem = ps.deep_view().subrange(i as int, ps@.len() as int);
        let kc = str_to_chars(ps[i].0.as_str());
        if chars_eq(&kc, name) {
            assert(rem[0].0 == name@);
            return Some(ps[i].1.clone());
        }
        i = i + 1;
        proof {
            assert(rem.drop_first() =~= ps.deep_view().subrange(i as int, ps@.len() as int));
        }
    }
    assert(ps.deep_view().subrange(ps@.len() as int, ps@.len() as int) =~= Seq::<(Seq<char>, Seq<
        char,
    >)>::empty());
    None
}

/// Splits at the first occurrence of `c`: the part before it and the part
/// after it, or nothing when `c` does not occur.
pub open spec fn split_once_at(s: Seq<char>, c: char) -> Option<(Seq<char>, Seq<char>)>
    decreases s.len(),
{
    if s.len() == 0 {
        None
    } else if s[0] == c {
        Some((Seq::<char>::empty(), s.drop_first()))
    } else {
        match split_once_at(s.drop_first(), c) {
            Some(p) => Some((seq![s[0]] + p.0, p.1)),
            None => None,
        }
    }
}

proof fn lemma_split_once_found(s: Seq<char>, c: char, i: int)
    requires
        0 <= i < s.len(),
        forall|j: int| 0 <= j < i ==> s[j] != c,
        s[i] == c,
    ensures
        split_once_at(s, c) == Some((s.subrange(0, i), s.subrange(i + 1, s.len() as int))),
    decreases i,
{
    if i == 0 {
        assert(s.subrange(0, 0) =~= Seq::<char>::empty());
        assert(s.subrange(1, s.len() as int) =~= s.drop_first());
    } else {
        let t = s.drop_first();
        lemma_split_once_found(t, c, i - 1);
        assert(seq![s[0]] + t.subrange(0, i - 1) =~= s.subrange(0, i));
        assert(t.subrange(i, t.len() as int) =~= s.subrange(i + 1, s.len() as int));
    }
}

proof fn lemma_split_once_none(s: Seq<char>, c: char)
    requires
        forall|j: int| 0 <= j < s.len() ==> s[j] != c,
    ensures
        split_once_at(s, c) is None,
    decreases s.len(),
{
    if s.len() > 0 {
        lemma_split_once_none(s.drop_first(), c);
    }
}

/// Splits a character vector at the first occurrence of `c`.
pub fn split_once_chars(v: &Vec<char>, c: char) -> (r: Option<(Vec<char>, Vec<char>)>)
    ensures
        match r {
            Some(p) => split_once_at(v@, c) == Some((p.0@, p.1@)),
            None => split_once_at(v@, c) is None,
        },
{
    let mut i: usize = 0;
    while i < v.len()
        invariant
            i <= v@.len(),
            forall|j: int| 0 <= j < i ==> v@[j] != c,
        decreases v@.len() - i,
    {
        if v[i] == c {
            proof {
                lemma_split_once_found(v@, c, i as int);
            }
            let mut before: Vec<char> = Vec::new();
            let mut k: usize = 0;
            while k < i
                invariant
                    k <= i <= v@.len(),
                    before@ == v@.subrange(0, k as int),
                decreases i - k,
            {
                before.push(v[k]);
                k = k + 1;
                assert(before@ =~= v@.subrange(0, k as int));
            }
            let mut after: Vec<char> = Vec::new();
            let mut m: usize = i + 1;
            while m < v.len()
                invariant
                    i + 1 <= m <= v@.len(),
                    after@ == v@.subrange(i + 1, m as int),
                decreases v@.len() - m,
            {
                after.push(v[m]);
                m = m + 1;
                assert(after@ =~= v@.subrange(i + 1, m as int));
            }
            return Some((before, after));
        }
        i = i + 1;
    }
    proof {
        lemma_split_once_none(v@, c);
    }
    None
}

/// The characters of `v` from index `a` (inclusive) to `b` (exclusive).
pub fn subvec(v: &Vec<char>, a: usize, b: usize) -> (r: Vec<char>)
    requires
        a <= b <= v@.len(),
    ensures
        r@ == v@.subrange(a as int, b as int),
{
    let mut r: Vec<char> = Vec::new();
    let mut i: usize = a;
    while i < b
        invariant
            a <= i <= b <= v@.len(),
            r@ == v@.subrange(a as int, i as int),
        decreases b - i,
    {
        r.push(v[i]);
        i = i + 1;
        assert(r@ =~= v@.subrange(a as int, i as int));
    }
    r
}

/// Appends the strings of `src` to `dst`.
pub fn append_strings(dst: &mut Vec<String>, src: Vec<String>)
    ensures
        final(dst).deep_view() == old(dst).deep_view() + src.deep_view(),
{
    let ghost base = dst.deep_view();
    let mut k: usize = 0;
    assert(src.deep_view().len() == src@.len());
    assert(base.len() == dst@.len());
    assert(base + src.deep_view().subrange(0, 0) =~= base);
    while k < src.len()
        invariant
            k <= src@.len(),
            dst.deep_view() == base + src.deep_view().subrange(0, k as int),
        decreases src@.len() - k,
    {
        let ghost dpre = dst.deep_view();
        dst.push(src[k].clone());
        k = k + 1;
        proof {
            let dv = dst.deep_view();
            let goal = base + src.deep_view().subrange(0, k as int);
            assert(dst@.len() == dpre.len() + 1);
            assert(dv.len() == dst@.len());
            assert(src.deep_view().subrange(0, k as int).len() == k);
            assert(base.len() + k == dpre.len() + 1);
            assert(dv.len() == goal.len());
            assert forall|j: int| 0 <= j < dv.len() implies dv[j] == goal[j] by {
                if j < dpre.len() {
                    assert(dv[j] == dpre[j]);
                } else {
                    assert(dst@[j] == src@[k - 1]);
                }
            }
            assert(dv =~= goal);
        }
    }
    assert(base + src.deep_view().subrange(0, src@.len() as int) =~= base + src.deep_view());
}

/// Pushing a vector extends the sequence of views by the vector's view.
pub proof fn lemma_charss_view_push(vs: Seq<Vec<char>>, x: Vec<char>)
    ensures
        charss_view(vs.push(x)) == charss_view(vs).push(x@),
{
    let a = charss_view(vs.push(x));
    let b = charss_view(vs).push(x@);
    assert(a.len() == b.len());
    assert forall|j: int| 0 <= j < a.len() implies a[j] == b[j] by {
        if j < vs.len() {
            assert(vs.push(x)[j] == vs[j]);
        } else {
            assert(vs.push(x)[j] == x);
        }
    }
    assert(a =~= b);
}

/// The concatenation of two character vectors.
pub fn concat_chars(a: &Vec<char>, b: &Vec<char>) -> (r: Vec<char>)
    ensures
        r@ == a@ + b@,
{
    let mut r = subvec(a, 0, a.len());
    assert(r@ =~= a@);
    let mut i: usize = 0;
    while i < b.len()
        invariant
            i <= b@.len(),
            r@ == a@ + b@.subrange(0, i as int),
        decreases b@.len() - i,
    {
        r.push(b[i]);
        i = i + 1;
        assert(r@ =~= a@ + b@.subrange(0, i as int));
    }
    assert(a@ + b@.subrange(0, b@.len() as int) =~= a@ + b@);
    r
}

/// The strings holding the given character vectors.
pub fn strings_of(vs: Vec<Vec<char>>) -> (r: Vec<String>)
    ensures
        r.deep_view() == charss_view(vs@),
{
    let mut r: Vec<String> = Vec::new();
    let mut i: usize = 0;
    while i < vs.len()
        invariant
            i <= vs@.len(),
            r.deep_view() == charss_view(vs@.subrange(0, i as int)),
        decreases vs@.len() - i,
    {
        let ghost pre_dv = r.deep_view();
        let s_i = chars_to_string(&vs[i]);
        assert(s_i@ == vs@[i as int]@);
        r.push(s_i);
        i = i + 1;
        proof {
            let dv = r.deep_view();
            let cv = charss_view(vs@.subrange(0, i as int));
            assert(pre_dv.len() == i - 1);
            assert(r@.len() == pre_dv.len() + 1);
            assert(cv.len() == i);
            assert(dv.len() == r@.len());
            assert(dv.len() == cv.len());
            assert forall|j: int| 0 <= j < dv.len() implies dv[j] == cv[j] by {
                assert(dv[j] == r@[j].deep_view());
                if j < i - 1 {
                    assert(pre_dv[j] == cv[j]);
                }
            }
            assert(dv =~= cv);
        }
    }
    assert(vs@.subrange(0, vs@.len() as int) =~= vs@);
    r
}

/// Whether `pat` occurs in `v` starting at index `i`.
pub fn match_at(v: &Vec<char>, i: usize, pat: &Vec<char>) -> (r: bool)
    requires
        i + pat@.len() <= v@.len(),
    ensures
        r == (pat@ == v@.subrange(i as int, i + pat@.len())),
{
    let nv = v.len();
    let mut j: usize = 0;
    while j < pat.len()
        invariant
            j <= pat@.len(),
            nv == v@.len(),
            i + pat@.len() <= v@.len(),
            pat@.subrange(0, j as int) == v@.subrange(i as int, i + j),
        decreases pat@.len() - j,
    {
        assert(i + j < nv);
        if pat[j] != v[i + j] {
            assert(pat@[j as int] != v@.subrange(i as int, i + pat@.len())[j as int]);
            return false;
        }
        j = j + 1;
        assert(pat@.subrange(0, j as int) =~= v@.subrange(i as int, i + j));
    }
    assert(pat@.subrange(0, pat@.len() as int) =~= pat@);
    true
}

/// `s` with every non-overlapping occurrence of `pat` replaced by `rep`,
/// scanning left to right.
pub open spec fn replace_all(s: Seq<char>, pat: Seq<char>, rep: Seq<char>) -> Seq<char>
    decreases s.len(),
        when pat.len() > 0
{
    if s.len() == 0 {
        Seq::<char>::empty()
    } else if pat.is_prefix_of(s) {
        rep + replace_all(s.skip(pat.len() as int), pat, rep)
    } else {
        seq![s[0]] + replace_all(s.drop_first(), pat, rep)
    }
}

/// Replaces every occurrence of `pat` in `v` by `rep`.
pub fn replace_chars(v: &Vec<char>, pat: &Vec<char>, rep: &Vec<char>) -> (r: Vec<char>)
    requires
        pat@.len() > 0,
    ensures
        r@ == replace_all(v@, pat@, rep@),
{
    let mut r: Vec<char> = Vec::new();
    let mut i: usize = 0;
    assert(v@.subrange(0, v@.len() as int) =~= v@);
    while i < v.len()
        invariant
            i <= v@.len(),
            pat@.len() > 0,
            replace_all(v@, pat@, rep@) == r@ + replace_all(
                v@.subrange(i as int, v@.len() as int),
                pat@,
                rep@,
            ),
        decreases v@.len() - i,
    {
        let ghost rem = v@.subrange(i as int, v@.len() as int);
        let n = v.len();
        if pat.len() <= n - i && match_at(v, i, pat) {
            proof {
                assert(rem.subrange(0, pat@.len() as int) =~= v@.subrange(
                    i as int,
                    i + pat@.len(),
                ));
                assert(pat@.is_prefix_of(rem));
                assert(rem.skip(pat@.len() as int) =~= v@.subrange(
                    i + pat@.len(),
                    v@.len() as int,
                ));
            }
            let mut j: usize = 0;
            let ghost rpre = r@;
            while j < rep.len()
                invariant
                    j <= rep@.len(),
                    r@ == rpre + rep@.subrange(0, j as int),
                decreases rep@.len() - j,
            {
                r.push(rep[j]);
                j = j + 1;
                assert(r@ =~= rpre + rep@.subrange(0, j as int));
            }
            assert(rep@.subrange(0, rep@.len() as int) =~= rep@);
            assert(r@ =~= rpre + rep@);
            i = i + pat.len();
        } else {
            proof {
                if pat@.len() <= rem.len() {
                    assert(rem.subrange(0, pat@.len() as int) =~= v@.subrange(
                        i as int,
                        i + pat@.len(),
                    ));
                }
                assert(!pat@.is_prefix_of(rem));
                assert(rem.drop_first() =~= v@.subrange(i + 1, v@.len() as int));
                assert(rem[0] == v@[i as int]);
            }
            r.push(v[i]);
            i = i + 1;
        }
    }
    assert(v@.subrange(v@.len() as int, v@.len() as int) =~= Seq::<char>::empty());
    assert(r@ + Seq::<char>::empty() =~= r@);
    r
}

} // verus!



