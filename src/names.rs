//! The `_category.field` shape of a data name.

use crate::text::push_char;
use vstd::prelude::*;

verus! {

/// ASCII letters, digits and `_`.
pub open spec fn is_ident_char(c: char) -> bool {
    ('a' <= c <= 'z') || ('A' <= c <= 'Z') || ('0' <= c <= '9') || c == '_'
}

/// Characters allowed in a field name: those of an identifier and `[`, `]`.
pub open spec fn is_field_char(c: char) -> bool {
    is_ident_char(c) || c == '[' || c == ']'
}

/// `t` is `_category.field` with its dot at `d`: `_` and at least one identifier
/// character, the dot, then at least one field character.
pub open spec fn name_shape(t: Seq<char>, d: int) -> bool {
    &&& 2 <= d < t.len() - 1
    &&& t[0] == '_'
    &&& t[d] == '.'
    &&& forall|j: int| 1 <= j < d ==> is_ident_char(#[trigger] t[j])
    &&& forall|j: int| d < j < t.len() ==> is_field_char(#[trigger] t[j])
}

fn ident_char(c: char) -> (r: bool)
    ensures
        r == is_ident_char(c),
{
    ('a' <= c && c <= 'z') || ('A' <= c && c <= 'Z') || ('0' <= c && c <= '9') || c == '_'
}

/// The position of the dot of `t` when it has the `_category.field` shape.
pub fn data_name_dot(t: &Vec<char>) -> (r: Option<usize>)
    ensures
        r matches Some(d) ==> name_shape(t@, d as int),
        r is None ==> forall|d: int| !name_shape(t@, d),
{
    let n = t.len();
    if n == 0 || t[0] != '_' {
        return None;
    }
    let mut d: usize = 1;
    while d < n && ident_char(t[d])
        invariant
            1 <= d <= n == t@.len(),
            forall|j: int| 1 <= j < d ==> is_ident_char(#[trigger] t@[j]),
        decreases n - d,
    {
        d += 1;
    }
    if d < 2 || d >= n - 1 || t[d] != '.' {
        proof {
            assert forall|e: int| !name_shape(t@, e) by {
                if name_shape(t@, e) {
                    if e < d {
                        assert(is_ident_char(t@[e]));
                    } else if e > d {
                        assert(is_ident_char(t@[d as int]));
                    }
                }
            }
        }
        return None;
    }
    let mut j: usize = d + 1;
    while j < n
        invariant
            d + 1 <= j <= n == t@.len(),
            2 <= d,
            t@[d as int] == '.',
            t@[0] == '_',
            forall|j: int| 1 <= j < d ==> is_ident_char(#[trigger] t@[j]),
            forall|k: int| d < k < j ==> is_field_char(#[trigger] t@[k]),
        decreases n - j,
    {
        let c = t[j];
        if !(ident_char(c) || c == '[' || c == ']') {
            proof {
                assert forall|e: int| !name_shape(t@, e) by {
                    if name_shape(t@, e) {
                        if e < d {
                            assert(is_ident_char(t@[e]));
                        } else if e > d {
                            assert(is_ident_char(t@[d as int]));
                        }
                        assert(is_field_char(t@[j as int]));
                    }
                }
            }
            return None;
        }
        j += 1;
    }
    Some(d)
}

/// `category` `.` `field`, the qualified name of a field.
pub fn qualified_name(category: &String, field: &String) -> (r: String)
    ensures
        r@ == category@ + seq!['.'] + field@,
{
    let mut r = category.clone();
    push_char(&mut r, '.');
    let mut i: usize = 0;
    let f = crate::text::chars_of(field.as_str());
    let ghost base = r@;
    while i < f.len()
        invariant
            i <= f@.len(),
            f@ == field@,
            base == category@ + seq!['.'],
            r@ == base + f@.subrange(0, i as int),
        decreases f@.len() - i,
    {
        push_char(&mut r, f[i]);
        i += 1;
        assert(r@ =~= base + f@.subrange(0, i as int));
    }
    assert(f@.subrange(0, f@.len() as int) =~= f@);
    r
}

} // verus!
