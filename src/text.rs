use vstd::prelude::*;

verus! {

/// Whether the character has Unicode's White_Space property.
pub open spec fn white_space(c: char) -> bool {
    let u = c as u32;
    ||| 0x9 <= u <= 0xd
    ||| u == 0x20 || u == 0x85 || u == 0xa0 || u == 0x1680
    ||| 0x2000 <= u <= 0x200a
    ||| u == 0x2028 || u == 0x2029 || u == 0x202f || u == 0x205f || u == 0x3000
}

/// Relies on `char::is_whitespace`: true exactly for the characters with the
/// White_Space property.
#[verifier::external_body]
fn is_white_space(c: char) -> (r: bool)
    ensures
        r == white_space(c),
{
    c.is_whitespace()
}

/// The sequence without its leading white space.
pub open spec fn trim_start_spec(s: Seq<char>) -> Seq<char>
    decreases s.len(),
{
    if s.len() > 0 && white_space(s[0]) {
        trim_start_spec(s.drop_first())
    } else {
        s
    }
}

/// The sequence without its trailing white space.
pub open spec fn trim_end_spec(s: Seq<char>) -> Seq<char>
    decreases s.len(),
{
    if s.len() > 0 && white_space(s.last()) {
        trim_end_spec(s.drop_last())
    } else {
        s
    }
}

/// The sequence without leading or trailing white space.
pub open spec fn trim_spec(s: Seq<char>) -> Seq<char> {
    trim_end_spec(trim_start_spec(s))
}

/// The length of the first line of `s`, its line feed included.
pub open spec fn line_end(s: Seq<char>) -> int
    decreases s.len(),
{
    if s.len() == 0 {
        0
    } else if s[0] == '\n' {
        1
    } else {
        1 + line_end(s.drop_first())
    }
}

/// The lines of `s`, each keeping its line feed; the last line may lack one.
/// Empty text has no lines.
pub open spec fn lines_spec(s: Seq<char>) -> Seq<Seq<char>>
    decreases s.len(),
{
    if s.len() == 0 {
        Seq::empty()
    } else {
        let e = line_end(s);
        if 0 < e <= s.len() {
            seq![s.take(e)] + lines_spec(s.skip(e))
        } else {
            Seq::empty()
        }
    }
}

proof fn lemma_line_end_bounds(s: Seq<char>)
    ensures
        s.len() > 0 ==> 0 < line_end(s) <= s.len(),
    decreases s.len(),
{
    if s.len() > 0 && s[0] != '\n' {
        lemma_line_end_bounds(s.drop_first());
        assert(line_end(s) == 1 + line_end(s.drop_first()));
        if s.len() == 1 {
            assert(s.drop_first().len() == 0);
            assert(line_end(s.drop_first()) == 0);
        }
    }
}

/// The characters of `v[lo..hi]` as a new vector.
fn copy_range(v: &Vec<char>, lo: usize, hi: usize) -> (r: Vec<char>)
    requires
        lo <= hi <= v@.len(),
    ensures
        r@ == v@.subrange(lo as int, hi as int),
{
    let mut out: Vec<char> = Vec::new();
    let mut i: usize = lo;
    while i < hi
        invariant
            lo <= i <= hi <= v@.len(),
            out@ == v@.subrange(lo as int, i as int),
        decreases hi - i,
    {
        out.push(v[i]);
        proof {
            assert(out@ =~= v@.subrange(lo as int, i + 1));
        }
        i = i + 1;
    }
    out
}

/// The characters of `s` without leading or trailing white space.
pub fn trim(s: &Vec<char>) -> (r: Vec<char>)
    ensures
        r@ == trim_spec(s@),
{
    let n = s.len();
    let mut i: usize = 0;
    assert(s@.subrange(0, n as int) =~= s@);
    while i < n && is_white_space(s[i])
        invariant
            i <= n == s@.len(),
            trim_start_spec(s@) == trim_start_spec(s@.subrange(i as int, n as int)),
        decreases n - i,
    {
        proof {
            assert(s@.subrange(i as int, n as int).drop_first() =~= s@.subrange(i + 1, n as int));
        }
        i = i + 1;
    }
    proof {
        if i == n {
            assert(s@.subrange(i as int, n as int) =~= Seq::<char>::empty());
        }
    }
    let mut j: usize = n;
    while j > i && is_white_space(s[j - 1])
        invariant
            i <= j <= n == s@.len(),
            trim_start_spec(s@) == s@.subrange(i as int, n as int),
            trim_spec(s@) == trim_end_spec(s@.subrange(i as int, j as int)),
        decreases j - i,
    {
        proof {
            assert(s@.subrange(i as int, j as int).drop_last() =~= s@.subrange(i as int, j - 1));
        }
        j = j - 1;
    }
    copy_range(s, i, j)
}

/// Whether `s` holds nothing but white space.
pub fn is_blank(s: &Vec<char>) -> (r: bool)
    ensures
        r == (trim_spec(s@).len() == 0),
{
    trim(s).len() == 0
}

/// Splits `s` into lines, each keeping its line feed.
pub fn split_lines(s: &Vec<char>) -> (r: Vec<Vec<char>>)
    ensures
        r@.map_values(|l: Vec<char>| l@) == lines_spec(s@),
{
    let n = s.len();
    let mut out: Vec<Vec<char>> = Vec::new();
    let mut pos: usize = 0;
    assert(s@.skip(0) =~= s@);
    assert(out@.map_values(|l: Vec<char>| l@) + lines_spec(s@) =~= lines_spec(s@));
    while pos < n
        invariant
            pos <= n == s@.len(),
            lines_spec(s@) == out@.map_values(|l: Vec<char>| l@) + lines_spec(s@.skip(pos as int)),
        decreases n - pos,
    {
        let ghost rest = s@.skip(pos as int);
        let mut k: usize = pos;
        while k < n && s[k] != '\n'
            invariant
                pos <= k <= n == s@.len(),
                rest == s@.skip(pos as int),
                line_end(rest) == (k - pos) + line_end(s@.skip(k as int)),
            decreases n - k,
        {
            proof {
                assert(s@.skip(k as int).drop_first() =~= s@.skip(k + 1));
            }
            k = k + 1;
        }
        let end: usize = if k < n { k + 1 } else { k };
        proof {
            if k == n {
                assert(s@.skip(k as int).len() == 0);
            }
            lemma_line_end_bounds(rest);
            assert(line_end(rest) == end - pos);
            assert(rest.take(end - pos) =~= s@.subrange(pos as int, end as int));
            assert(rest.skip(end - pos) =~= s@.skip(end as int));
        }
        let line = copy_range(s, pos, end);
        let ghost before = out@;
        out.push(line);
        proof {
            assert(out@.map_values(|l: Vec<char>| l@) =~= before.map_values(|l: Vec<char>| l@)
                + seq![line@]);
        }
        pos = end;
    }
    proof {
        assert(s@.skip(pos as int) =~= Seq::<char>::empty());
        assert(out@.map_values(|l: Vec<char>| l@) + Seq::<Seq<char>>::empty() =~= out@.map_values(
            |l: Vec<char>| l@,
        ));
    }
    out
}

/// The index of the first colon in `s`, if any.
pub open spec fn first_colon(s: Seq<char>) -> Option<int> {
    if exists|k: int| 0 <= k < s.len() && s[k] == ':' {
        Some(choose|k: int| 0 <= k < s.len() && s[k] == ':' && forall|j: int| 0 <= j < k ==> s[j] != ':')
    } else {
        None
    }
}

/// An inline query split into an optional language hint and the code.
pub struct Query {
    pub hint: Option<Vec<char>>,
    pub code: Vec<char>,
}

/// Whether white space occurs among the first `k` characters.
pub open spec fn has_space_before(q: Seq<char>, k: int) -> bool {
    exists|j: int| 0 <= j < k && white_space(#[trigger] q[j])
}

/// The hint of a query: the text before its first colon, where that text
/// holds no white space.
pub open spec fn hint_spec(q: Seq<char>) -> Option<Seq<char>> {
    match first_colon(q) {
        Some(k) => if has_space_before(q, k) { None } else { Some(q.take(k)) },
        None => None,
    }
}

/// The code of a query: what follows the hint's colon, or the whole query
/// when it has no hint.
pub open spec fn code_spec(q: Seq<char>) -> Seq<char> {
    match hint_spec(q) {
        Some(h) => q.skip(h.len() as int + 1),
        None => q,
    }
}

/// Splits a query such as `py:print(1)` into its hint `py` and its code.
pub fn parse_query(q: &Vec<char>) -> (r: Query)
    ensures
        r.hint matches Some(h) ==> hint_spec(q@) == Some(h@),
        r.hint is None ==> hint_spec(q@) is None,
        r.code@ == code_spec(q@),
{
    let n = q.len();
    let mut k: usize = 0;
    let mut space = false;
    while k < n && q[k] != ':'
        invariant
            k <= n == q@.len(),
            forall|j: int| 0 <= j < k ==> q@[j] != ':',
            space == has_space_before(q@, k as int),
        decreases n - k,
    {
        proof {
            if white_space(q@[k as int]) {
                assert(has_space_before(q@, k + 1));
            }
        }
        if is_white_space(q[k]) {
            space = true;
        }
        k = k + 1;
    }
    proof {
        if k < n {
            let c = choose|c: int| 0 <= c < q@.len() && q@[c] == ':' && forall|j: int| 0 <= j < c ==> q@[j] != ':';
            assert(c == k) by {
                if c < k {
                } else if c > k {
                }
            }
            assert(first_colon(q@) == Some(k as int));
        } else {
            assert(first_colon(q@) is None);
        }
    }
    if k < n && !space {
        let hint = copy_range(q, 0, k);
        let code = copy_range(q, k + 1, n);
        proof {
            assert(q@.take(k as int) =~= q@.subrange(0, k as int));
            assert(q@.skip(k + 1) =~= q@.subrange(k + 1, n as int));
        }
        Query { hint: Some(hint), code }
    } else {
        let code = copy_range(q, 0, n);
        proof {
            assert(q@ =~= q@.subrange(0, n as int));
        }
        Query { hint: None, code }
    }
}

} // verus!
