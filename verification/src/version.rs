use vstd::prelude::*;

verus! {

/// True when `b` is the code of a decimal digit.
pub open spec fn is_digit(b: u8) -> bool {
    48 <= b <= 57
}

/// True when every byte of `s` is a decimal digit.
pub open spec fn all_digits(s: Seq<u8>) -> bool {
    forall|i: int| 0 <= i < s.len() ==> is_digit(#[trigger] s[i])
}

/// The number the digit bytes of `s` spell in decimal.
pub open spec fn digits_value(s: Seq<u8>) -> int
    decreases s.len(),
{
    if s.len() == 0 {
        0
    } else {
        digits_value(s.drop_last()) * 10 + (s.last() - 48)
    }
}

/// The version text split at every dot; splitting nothing gives the one
/// empty component, and a trailing dot opens a new empty component.
pub open spec fn split_components(s: Seq<u8>) -> Seq<Seq<u8>>
    decreases s.len(),
{
    if s.len() == 0 {
        seq![Seq::<u8>::empty()]
    } else {
        let rest = split_components(s.drop_last());
        if s.last() == 46 {
            rest.push(Seq::<u8>::empty())
        } else {
            rest.update(rest.len() - 1, rest.last().push(s.last()))
        }
    }
}

/// A component without its optional leading plus sign.
pub open spec fn unsigned_body(s: Seq<u8>) -> Seq<u8> {
    if s.len() > 0 && s[0] == 43 {
        s.drop_first()
    } else {
        s
    }
}

/// The number a component stands for: what parsing it as an eight-bit
/// unsigned number yields, or zero where that parse fails.
pub open spec fn component_value(s: Seq<u8>) -> int {
    let d = unsigned_body(s);
    if d.len() > 0 && all_digits(d) && digits_value(d) <= 255 {
        digits_value(d)
    } else {
        0
    }
}

/// The value of component `i` of the version text, or zero past the end.
pub open spec fn component_or_zero(text: Seq<u8>, i: int) -> int {
    if 0 <= i < split_components(text).len() {
        component_value(split_components(text)[i])
    } else {
        0
    }
}

/// True when the client's version text is accepted against the required
/// version: no required component exceeds the client's.
pub open spec fn version_accepted(text: Seq<u8>, required: Seq<u8>) -> bool {
    forall|i: int| 0 <= i < required.len() ==> component_or_zero(text, i) >= #[trigger] required[i]
}

/// A digit run's value is never negative.
proof fn lemma_digits_value_nonneg(s: Seq<u8>)
    requires
        all_digits(s),
    ensures
        digits_value(s) >= 0,
    decreases s.len(),
{
    if s.len() > 0 {
        assert(all_digits(s.drop_last()));
        lemma_digits_value_nonneg(s.drop_last());
    }
}

/// A digit run's value only grows along its prefixes.
proof fn lemma_digits_value_take(s: Seq<u8>, k: int)
    requires
        all_digits(s),
        0 <= k <= s.len(),
    ensures
        digits_value(s.take(k)) <= digits_value(s),
    decreases s.len(),
{
    if k == s.len() {
        assert(s.take(k) =~= s);
    } else {
        let s2 = s.drop_last();
        assert(all_digits(s2));
        assert(s.take(k) =~= s2.take(k));
        lemma_digits_value_take(s2, k);
        lemma_digits_value_nonneg(s2);
    }
}

/// Split the version text at its dots.
fn split_bytes(text: &Vec<u8>) -> (comps: Vec<Vec<u8>>)
    ensures
        comps@.map_values(|c: Vec<u8>| c@) =~= split_components(text@),
{
    let n = text.len();
    let mut done: Vec<Vec<u8>> = Vec::new();
    let mut current: Vec<u8> = Vec::new();
    let mut i: usize = 0;
    while i < n
        invariant
            n == text@.len(),
            0 <= i <= n,
            split_components(text@.take(i as int)) =~= done@.map_values(|c: Vec<u8>| c@).push(
                current@,
            ),
        decreases n - i,
    {
        proof {
            assert(text@.take(i as int + 1).drop_last() =~= text@.take(i as int));
            assert(text@.take(i as int + 1).last() == text@[i as int]);
        }
        let b = text[i];
        if b == 46 {
            let ghost prev_done = done@;
            let ghost prev_current = current@;
            done.push(current);
            current = Vec::new();
            proof {
                assert(done@.map_values(|c: Vec<u8>| c@) =~= prev_done.map_values(
                    |c: Vec<u8>| c@,
                ).push(prev_current));
                assert(split_components(text@.take(i as int + 1)) =~= done@.map_values(
                    |c: Vec<u8>| c@,
                ).push(current@));
            }
        } else {
            let ghost prev = done@.map_values(|c: Vec<u8>| c@).push(current@);
            current.push(b);
            proof {
                assert(prev.update(prev.len() - 1, prev.last().push(b)) =~= done@.map_values(
                    |c: Vec<u8>| c@,
                ).push(current@));
            }
        }
        i += 1;
    }
    proof {
        assert(text@.take(n as int) =~= text@);
    }
    done.push(current);
    comps_result(done)
}

/// Hand the finished component list back unchanged; a separate step so the
/// borrow of the last component ends before the list is returned.
fn comps_result(done: Vec<Vec<u8>>) -> (r: Vec<Vec<u8>>)
    ensures
        r == done,
{
    done
}

/// The value of one component: the number it spells, or zero where it is
/// empty, has a stray byte, or overflows eight bits.
fn component_value_exec(comp: &Vec<u8>) -> (v: u8)
    ensures
        v as int == component_value(comp@),
{
    let n = comp.len();
    let start: usize = if n > 0 && comp[0] == 43 {
        1
    } else {
        0
    };
    let ghost d = unsigned_body(comp@);
    proof {
        if n > 0 && comp@[0] == 43 {
            assert(d =~= comp@.subrange(1, n as int));
        } else {
            assert(d =~= comp@);
        }
    }
    if start == n {
        assert(d.len() == 0);
        return 0;
    }
    let mut acc: u32 = 0;
    let mut j: usize = start;
    while j < n
        invariant
            n == comp@.len(),
            start <= j <= n,
            start <= 1,
            start < n,
            d == unsigned_body(comp@),
            d.len() == n - start,
            forall|k: int| 0 <= k < d.len() ==> d[k] == comp@[k + start],
            all_digits(d.take(j - start)),
            acc as int == digits_value(d.take(j - start)),
            acc <= 255,
        decreases n - j,
    {
        proof {
            assert(d.take(j - start + 1).drop_last() =~= d.take(j - start));
            assert(d.take(j - start + 1).last() == d[j - start]);
        }
        let b = comp[j];
        if b < 48 || b > 57 {
            proof {
                assert(d[j - start] == b);
                assert(!all_digits(d));
            }
            return 0;
        }
        let digit: u32 = (b - 48) as u32;
        let next: u32 = acc * 10 + digit;
        if next > 255 {
            proof {
                assert(all_digits(d.take(j - start + 1)));
                if all_digits(d) {
                    lemma_digits_value_take(d, j - start + 1);
                    assert(digits_value(d) > 255);
                }
            }
            return 0;
        }
        acc = next;
        j += 1;
    }
    proof {
        assert(d.take(n - start) =~= d);
        assert(all_digits(d));
        assert(component_value(comp@) == digits_value(d));
    }
    acc as u8
}

/// Whether the client's version text passes the required version: each
/// required component, in order, must not exceed the matching component of
/// the text, a missing or unreadable component counting as zero.
pub fn version_ok(text: &Vec<u8>, required: &Vec<u8>) -> (ok: bool)
    ensures
        ok == version_accepted(text@, required@),
{
    let comps = split_bytes(text);
    let m = required.len();
    let n = comps.len();
    let mut i: usize = 0;
    while i < m
        invariant
            m == required@.len(),
            n == comps@.len(),
            0 <= i <= m,
            comps@.map_values(|c: Vec<u8>| c@) =~= split_components(text@),
            forall|j: int| 0 <= j < i ==> component_or_zero(text@, j) >= #[trigger] required@[j],
        decreases m - i,
    {
        let cv: u8 = if i < n {
            let v = component_value_exec(&comps[i]);
            proof {
                assert(comps@.map_values(|c: Vec<u8>| c@)[i as int] == comps@[i as int]@);
            }
            v
        } else {
            0
        };
        assert(cv as int == component_or_zero(text@, i as int));
        if cv < required[i] {
            assert(!version_accepted(text@, required@));
            return false;
        }
        i += 1;
    }
    true
}

} // verus!
