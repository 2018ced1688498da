use vstd::prelude::*;

verus! {

/// The characters that `char::is_whitespace` accepts (Unicode `White_Space`).
pub open spec fn is_ws(c: char) -> bool {
    let n = c as u32;
    (0x09 <= n && n <= 0x0D) || n == 0x20 || n == 0x85 || n == 0xA0 || n == 0x1680
        || (0x2000 <= n && n <= 0x200A) || n == 0x2028 || n == 0x2029 || n == 0x202F
        || n == 0x205F || n == 0x3000
}

/// `s[i..j]` is one comma-separated field of `s`.
pub open spec fn is_field(s: Seq<char>, i: int, j: int) -> bool {
    &&& 0 <= i <= j <= s.len()
    &&& i == 0 || s[i - 1] == ','
    &&& j == s.len() || s[j] == ','
    &&& forall|k: int| i <= k < j ==> s[k] != ','
}

/// `s[a..b]` is the field `s[i..j]` with surrounding whitespace removed.
pub open spec fn is_trimmed(s: Seq<char>, i: int, j: int, a: int, b: int) -> bool {
    &&& i <= a <= b <= j
    &&& forall|k: int| i <= k < a ==> is_ws(s[k])
    &&& forall|k: int| b <= k < j ==> is_ws(s[k])
    &&& a < b ==> !is_ws(s[a]) && !is_ws(s[b - 1])
}

/// Some comma-separated field of `list`, once trimmed, equals `addr`.
pub open spec fn lists_address(list: Seq<char>, addr: Seq<char>) -> bool {
    exists|i: int, j: int, a: int, b: int|
        is_field(list, i, j) && #[trigger] is_trimmed(list, i, j, a, b) && list.subrange(a, b)
            == addr
}

proof fn lemma_field_end_unique(s: Seq<char>, i: int, j1: int, j2: int)
    requires
        is_field(s, i, j1),
        is_field(s, i, j2),
    ensures
        j1 == j2,
{
    if j1 < j2 {
        assert(s[j1] != ',');
    } else if j2 < j1 {
        assert(s[j2] != ',');
    }
}

proof fn lemma_trim_unique(s: Seq<char>, i: int, j: int, a1: int, b1: int, a2: int, b2: int)
    requires
        is_field(s, i, j),
        is_trimmed(s, i, j, a1, b1),
        is_trimmed(s, i, j, a2, b2),
    ensures
        s.subrange(a1, b1) == s.subrange(a2, b2),
{
    if a1 < b1 && a2 < b2 {
        if a1 < a2 {
            assert(is_ws(s[a1]));
        } else if a2 < a1 {
            assert(is_ws(s[a2]));
        }
        if b1 < b2 {
            assert(is_ws(s[b2 - 1]));
        } else if b2 < b1 {
            assert(is_ws(s[b1 - 1]));
        }
    } else if a1 < b1 {
        if a1 < a2 {
            assert(is_ws(s[a1]));
        } else {
            assert(is_ws(s[a1]));
        }
    } else if a2 < b2 {
        if a2 < a1 {
            assert(is_ws(s[a2]));
        } else {
            assert(is_ws(s[a2]));
        }
    } else {
        assert(s.subrange(a1, b1) =~= s.subrange(a2, b2));
    }
}

/// Whether `c` is whitespace in the sense of `is_ws`.
pub fn is_whitespace_char(c: char) -> (r: bool)
    ensures
        r == is_ws(c),
{
    let n = c as u32;
    (0x09 <= n && n <= 0x0D) || n == 0x20 || n == 0x85 || n == 0xA0 || n == 0x1680 || (0x2000
        <= n && n <= 0x200A) || n == 0x2028 || n == 0x2029 || n == 0x202F || n == 0x205F || n
        == 0x3000
}

/// The characters of `s`, in order.
pub fn chars_of(s: &str) -> (v: Vec<char>)
    ensures
        v@ == s@,
{
    let n = s.unicode_len();
    let mut v: Vec<char> = Vec::new();
    let mut i: usize = 0;
    while i < n
        invariant
            n == s@.len(),
            i <= n,
            v@ == s@.subrange(0, i as int),
        decreases n - i,
    {
        v.push(s.get_char(i));
        i += 1;
    }
    assert(v@ =~= s@);
    v
}

/// Whether two strings hold the same characters.
pub fn str_eq(a: &str, b: &str) -> (r: bool)
    ensures
        r == (a@ == b@),
{
    let va = chars_of(a);
    let vb = chars_of(b);
    assert(va@.subrange(0, va@.len() as int) =~= va@);
    slice_eq(&va, 0, va.len(), &vb)
}

/// Whether `v[a..b]` equals `w`.
pub fn slice_eq(v: &Vec<char>, a: usize, b: usize, w: &Vec<char>) -> (r: bool)
    requires
        a <= b <= v@.len(),
    ensures
        r == (v@.subrange(a as int, b as int) == w@),
{
    if b - a != w.len() {
        return false;
    }
    let mut k: usize = 0;
    while k < w.len()
        invariant
            a <= b <= v@.len(),
            b - a == w@.len(),
            k <= w@.len(),
            forall|t: int| 0 <= t < k ==> v@[a + t] == w@[t],
        decreases w@.len() - k,
    {
        if v[a + k] != w[k] {
            assert(v@.subrange(a as int, b as int)[k as int] != w@[k as int]);
            return false;
        }
        k += 1;
    }
    assert(v@.subrange(a as int, b as int) =~= w@);
    true
}

/// Whether one of the comma-separated fields of `list`, trimmed of
/// surrounding whitespace, equals `addr`.
pub fn list_contains_address(list: &str, addr: &str) -> (r: bool)
    ensures
        r == lists_address(list@, addr@),
{
    let v = chars_of(list);
    let w = chars_of(addr);
    let n = v.len();
    let mut st: usize = 0;
    loop
        invariant
            n == v@.len(),
            v@ == list@,
            w@ == addr@,
            st <= n,
            st == 0 || v@[st - 1] == ',',
            forall|i: int, j: int, a: int, b: int|
                i < st && is_field(v@, i, j) && #[trigger] is_trimmed(v@, i, j, a, b)
                    ==> v@.subrange(a, b) != w@,
        decreases n - st,
    {
        let mut e: usize = st;
        while e < n && v[e] != ','
            invariant
                st <= e <= n,
                n == v@.len(),
                forall|k: int| st <= k < e ==> v@[k] != ',',
            decreases n - e,
        {
            e += 1;
        }
        assert(is_field(v@, st as int, e as int));
        let mut a: usize = st;
        while a < e && is_whitespace_char(v[a])
            invariant
                st <= a <= e <= n,
                n == v@.len(),
                forall|k: int| st <= k < a ==> is_ws(v@[k]),
            decreases e - a,
        {
            a += 1;
        }
        let mut b: usize = e;
        while b > a && is_whitespace_char(v[b - 1])
            invariant
                a <= b <= e <= n,
                n == v@.len(),
                forall|k: int| b <= k < e ==> is_ws(v@[k]),
            decreases b - a,
        {
            b -= 1;
        }
        assert(is_trimmed(v@, st as int, e as int, a as int, b as int));
        if slice_eq(&v, a, b, &w) {
            return true;
        }
        assert forall|i: int, j: int, a2: int, b2: int|
            i <= e && is_field(v@, i, j) && #[trigger] is_trimmed(v@, i, j, a2, b2)
                implies v@.subrange(a2, b2) != w@ by {
            if i == st {
                lemma_field_end_unique(v@, st as int, e as int, j);
                lemma_trim_unique(v@, st as int, e as int, a as int, b as int, a2, b2);
            } else if i > st {
                assert(v@[i - 1] != ',');
            }
        }
        if e == n {
            return false;
        }
        st = e + 1;
    }
}

} // verus!
