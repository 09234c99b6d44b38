use vstd::prelude::*;

verus! {

/// `s` with every `from` replaced by `to`.
pub open spec fn map_char(s: Seq<char>, from: char, to: char) -> Seq<char> {
    s.map_values(|c: char| if c == from { to } else { c })
}

/// Replacing a character keeps the length and changes exactly the places that held it.
pub proof fn law_map_char(s: Seq<char>, from: char, to: char)
    ensures
        map_char(s, from, to).len() == s.len(),
        forall|i: int|
            0 <= i < s.len() ==> (s[i] == from ==> #[trigger] map_char(s, from, to)[i] == to) && (s[i]
                != from ==> map_char(s, from, to)[i] == s[i]),
{
}

/// `pat` occurs in `s` at position `i`.
pub open spec fn occurs_at(s: Seq<char>, pat: Seq<char>, i: int) -> bool {
    0 <= i && i + pat.len() <= s.len() && s.subrange(i, i + pat.len()) == pat
}

/// `pat` occurs somewhere in `s`.
pub open spec fn contains_seq(s: Seq<char>, pat: Seq<char>) -> bool {
    exists|i: int| occurs_at(s, pat, i)
}

/// `s` with each occurrence of `pat` replaced by `rep`, scanning from the left and
/// not overlapping, as `str::replace` does (a non-empty `pat`).
pub open spec fn replaced(s: Seq<char>, pat: Seq<char>, rep: Seq<char>) -> Seq<char>
    decreases s.len(),
{
    if pat.len() == 0 || s.len() < pat.len() {
        s
    } else if s.subrange(0, pat.len() as int) == pat {
        rep + replaced(s.skip(pat.len() as int), pat, rep)
    } else {
        seq![s[0]] + replaced(s.skip(1), pat, rep)
    }
}

/// Appends `c` to `s` with `String::push`, which std documents as appending the given
/// char to the end of the string.
#[verifier::external_body]
fn push_char(s: &mut String, c: char)
    ensures
        final(s)@ == old(s)@.push(c),
{
    s.push(c);
}

/// The characters of `s`, in order.
pub fn chars_of(s: &str) -> (r: Vec<char>)
    ensures
        r@ == s@,
{
    let mut out: Vec<char> = Vec::new();
    for c in it: s.chars()
        invariant
            out@ == it.seq().take(it.index() as int),
            it.seq() == s@,
    {
        out.push(c);
        assert(out@ =~= it.seq().take(it.index() + 1));
    }
    assert(out@ =~= s@);
    out
}

/// The string made of the characters of `v`.
pub fn string_of_chars(v: &Vec<char>) -> (r: String)
    ensures
        r@ == v@,
{
    let mut out = String::new();
    let mut i: usize = 0;
    while i < v.len()
        invariant
            i <= v@.len(),
            out@ == v@.take(i as int),
        decreases v@.len() - i,
    {
        push_char(&mut out, v[i]);
        assert(out@ =~= v@.take(i + 1));
        i = i + 1;
    }
    assert(out@ =~= v@);
    out
}

/// The concatenation of `a`, `b` and `c`.
pub fn concat3(a: &str, b: &str, c: &str) -> (r: String)
    ensures
        r@ == a@ + b@ + c@,
{
    let mut out = String::from_str(a);
    out.append(b);
    out.append(c);
    out
}

/// The concatenation of `a`, `b`, `c` and `d`.
pub fn concat4(a: &str, b: &str, c: &str, d: &str) -> (r: String)
    ensures
        r@ == a@ + b@ + c@ + d@,
{
    let mut out = String::from_str(a);
    out.append(b);
    out.append(c);
    out.append(d);
    out
}

/// `s` with every `from` replaced by `to`.
pub fn replace_char(s: &str, from: char, to: char) -> (r: String)
    ensures
        r@ == map_char(s@, from, to),
{
    let v = chars_of(s);
    let mut out: Vec<char> = Vec::new();
    let mut i: usize = 0;
    while i < v.len()
        invariant
            i <= v@.len(),
            out@ == map_char(v@.take(i as int), from, to),
        decreases v@.len() - i,
    {
        if v[i] == from {
            out.push(to);
        } else {
            out.push(v[i]);
        }
        assert(out@ =~= map_char(v@.take(i + 1), from, to));
        i = i + 1;
    }
    assert(v@.take(v@.len() as int) =~= v@);
    string_of_chars(&out)
}

/// Whether `pat` occurs in `v` at position `i`.
fn occurs_at_exec(v: &Vec<char>, pat: &Vec<char>, i: usize) -> (r: bool)
    ensures
        r == occurs_at(v@, pat@, i as int),
{
    if i > v.len() || v.len() - i < pat.len() {
        return false;
    }
    let mut k: usize = 0;
    while k < pat.len()
        invariant
            i + pat@.len() <= v@.len(),
            v@.len() <= usize::MAX,
            k <= pat@.len(),
            forall|j: int| 0 <= j < k ==> v@[i + j] == pat@[j],
        decreases pat@.len() - k,
    {
        if v[i + k] != pat[k] {
            assert(v@.subrange(i as int, i + pat@.len())[k as int] != pat@[k as int]);
            return false;
        }
        k = k + 1;
    }
    assert(v@.subrange(i as int, i + pat@.len()) =~= pat@);
    true
}

proof fn lemma_replaced_skip(s: Seq<char>, pat: Seq<char>, rep: Seq<char>, i: int)
    requires
        pat.len() > 0,
        0 <= i < s.len(),
    ensures
        occurs_at(s, pat, i) ==> replaced(s.skip(i), pat, rep) == rep + replaced(
            s.skip(i + pat.len()),
            pat,
            rep,
        ),
        !occurs_at(s, pat, i) ==> replaced(s.skip(i), pat, rep) == seq![s[i]] + replaced(
            s.skip(i + 1),
            pat,
            rep,
        ),
{
    let t = s.skip(i);
    if t.len() >= pat.len() {
        assert(t.subrange(0, pat.len() as int) =~= s.subrange(i, i + pat.len()));
    }
    if i + pat.len() <= s.len() {
        assert(t.skip(pat.len() as int) =~= s.skip(i + pat.len()));
    }
    assert(t.skip(1) =~= s.skip(i + 1));
}

/// `s` with each occurrence of `pat` replaced by `rep`, from the left, without overlaps.
pub fn replace_text(s: &str, pat: &str, rep: &str) -> (r: String)
    requires
        pat@.len() > 0,
    ensures
        r@ == replaced(s@, pat@, rep@),
{
    let v = chars_of(s);
    let p = chars_of(pat);
    let rv = chars_of(rep);
    let mut out: Vec<char> = Vec::new();
    let mut i: usize = 0;
    assert(v@.skip(0) =~= v@);
    while i < v.len()
        invariant
            p@ == pat@,
            rv@ == rep@,
            p@.len() > 0,
            i <= v@.len(),
            out@ + replaced(v@.skip(i as int), p@, rv@) == replaced(v@, p@, rv@),
        decreases v@.len() - i,
    {
        proof {
            lemma_replaced_skip(v@, p@, rv@, i as int);
        }
        if occurs_at_exec(&v, &p, i) {
            let mut k: usize = 0;
            let ghost before = out@;
            while k < rv.len()
                invariant
                    k <= rv@.len(),
                    out@ == before + rv@.take(k as int),
                decreases rv@.len() - k,
            {
                out.push(rv[k]);
                assert(out@ =~= before + rv@.take(k + 1));
                k = k + 1;
            }
            assert(rv@.take(rv@.len() as int) =~= rv@);
            assert(out@ + replaced(v@.skip(i + p@.len()), p@, rv@) =~= before + (rv@ + replaced(
                v@.skip(i + p@.len()),
                p@,
                rv@,
            )));
            i = i + p.len();
        } else {
            let ghost before = out@;
            out.push(v[i]);
            assert(out@ + replaced(v@.skip(i + 1), p@, rv@) =~= before + (seq![v@[i as int]]
                + replaced(v@.skip(i + 1), p@, rv@)));
            i = i + 1;
        }
    }
    assert(v@.skip(i as int) =~= Seq::<char>::empty());
    assert(out@ =~= replaced(v@, p@, rv@));
    string_of_chars(&out)
}

/// Whether `pat` occurs in `s`.
pub fn contains_text(s: &str, pat: &str) -> (r: bool)
    ensures
        r == contains_seq(s@, pat@),
{
    let v = chars_of(s);
    let p = chars_of(pat);
    if p.len() == 0 {
        assert(v@.subrange(0, 0) =~= p@);
        assert(occurs_at(v@, p@, 0));
        return true;
    }
    let mut i: usize = 0;
    while i < v.len()
        invariant
            v@ == s@,
            p@ == pat@,
            p@.len() > 0,
            i <= v@.len(),
            forall|j: int| 0 <= j < i ==> !occurs_at(v@, p@, j),
        decreases v@.len() - i,
    {
        if occurs_at_exec(&v, &p, i) {
            return true;
        }
        i = i + 1;
    }
    false
}

/// Whether two texts are equal.
pub fn text_is(a: &str, b: &str) -> (r: bool)
    ensures
        r == (a@ == b@),
{
    let x = a.to_string();
    let y = b.to_string();
    x == y
}

/// Whether `s` begins with `prefix`.
pub fn starts_with(s: &str, prefix: &str) -> (r: bool)
    ensures
        r == prefix@.is_prefix_of(s@),
{
    let v = chars_of(s);
    let p = chars_of(prefix);
    let r = occurs_at_exec(&v, &p, 0);
    proof {
        if r {
            assert(v@.subrange(0, p@.len() as int) == p@);
        }
        if prefix@.is_prefix_of(s@) {
            assert(v@.subrange(0, p@.len() as int) =~= p@);
        }
    }
    r
}

/// Whether `s` ends with the character `c`.
pub fn ends_with_char(s: &str, c: char) -> (r: bool)
    ensures
        r == (s@.len() > 0 && s@.last() == c),
{
    let v = chars_of(s);
    v.len() > 0 && v[v.len() - 1] == c
}

/// `s` without its last character.
pub fn drop_last_char(s: &str) -> (r: String)
    requires
        s@.len() > 0,
    ensures
        r@ == s@.drop_last(),
{
    let mut v = chars_of(s);
    v.pop();
    assert(v@ =~= s@.drop_last());
    string_of_chars(&v)
}

} // verus!
