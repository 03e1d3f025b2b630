use vstd::prelude::*;

verus! {

/// The code of `c` with ASCII capitals taken to lower case.
pub open spec fn lower_code(c: char) -> u32 {
    let v = c as u32;
    if 65 <= v <= 90 {
        (v + 32) as u32
    } else {
        v
    }
}

/// `a` and `b` are equal up to the case of ASCII letters, as header names are compared.
pub open spec fn same_name(a: Seq<char>, b: Seq<char>) -> bool {
    &&& a.len() == b.len()
    &&& forall|i: int| 0 <= i < a.len() ==> lower_code(#[trigger] a[i]) == lower_code(b[i])
}

fn lower_code_of(c: char) -> (r: u32)
    ensures
        r == lower_code(c),
{
    let v = c as u32;
    if 65 <= v && v <= 90 {
        v + 32
    } else {
        v
    }
}

/// Whether two header names are the same name.
pub fn names_match(a: &str, b: &str) -> (r: bool)
    ensures
        r == same_name(a@, b@),
{
    let n = a.unicode_len();
    if n != b.unicode_len() {
        return false;
    }
    let mut i: usize = 0;
    while i < n
        invariant
            n == a@.len(),
            n == b@.len(),
            i <= n,
            forall|j: int| 0 <= j < i ==> lower_code(#[trigger] a@[j]) == lower_code(b@[j]),
        decreases n - i,
    {
        if lower_code_of(a.get_char(i)) != lower_code_of(b.get_char(i)) {
            return false;
        }
        i = i + 1;
    }
    true
}

/// Whether two strings are equal.
pub fn str_equal(a: &str, b: &str) -> (r: bool)
    ensures
        r == (a@ == b@),
{
    let n = a.unicode_len();
    if n != b.unicode_len() {
        return false;
    }
    let mut i: usize = 0;
    while i < n
        invariant
            n == a@.len(),
            n == b@.len(),
            i <= n,
            forall|j: int| 0 <= j < i ==> #[trigger] a@[j] == b@[j],
        decreases n - i,
    {
        if a.get_char(i) != b.get_char(i) {
            return false;
        }
        i = i + 1;
    }
    assert(a@ =~= b@);
    true
}

} // verus!
