use vstd::prelude::*;
use vstd::string::*;

verus! {

/// The meaning of a vertex attribute stream.
#[derive(Debug, Clone)]
pub enum Semantic {
    Positions,
    Normals,
    Tangents,
    Colors(u32),
    TexCoords(u32),
    Joints(u32),
    Weights(u32),
    Extras(String),
}

/// The outcome of classifying an attribute name.
#[derive(Debug, Clone)]
pub enum Checked<T> {
    Valid(T),
    Invalid,
}

/// Mathematical value of a `Semantic`: the extra attribute's name as characters.
pub enum SemanticModel {
    Positions,
    Normals,
    Tangents,
    Colors(u32),
    TexCoords(u32),
    Joints(u32),
    Weights(u32),
    Extras(Seq<char>),
}

impl View for Semantic {
    type V = SemanticModel;

    open spec fn view(&self) -> SemanticModel {
        match self {
            Semantic::Positions => SemanticModel::Positions,
            Semantic::Normals => SemanticModel::Normals,
            Semantic::Tangents => SemanticModel::Tangents,
            Semantic::Colors(n) => SemanticModel::Colors(*n),
            Semantic::TexCoords(n) => SemanticModel::TexCoords(*n),
            Semantic::Joints(n) => SemanticModel::Joints(*n),
            Semantic::Weights(n) => SemanticModel::Weights(*n),
            Semantic::Extras(name) => SemanticModel::Extras(name@),
        }
    }
}

impl<T: View> View for Checked<T> {
    type V = Option<T::V>;

    open spec fn view(&self) -> Option<T::V> {
        match self {
            Checked::Valid(t) => Some(t@),
            Checked::Invalid => None,
        }
    }
}

pub open spec fn starts_with(s: Seq<char>, p: Seq<char>) -> bool {
    p.len() <= s.len() && s.subrange(0, p.len() as int) == p
}

pub open spec fn is_decimal_digit(c: char) -> bool {
    48 <= c as u32 && c as u32 <= 57
}

pub open spec fn all_decimal_digits(d: Seq<char>) -> bool {
    forall|i: int| 0 <= i < d.len() ==> is_decimal_digit(#[trigger] d[i])
}

/// Value of a string of decimal digits, most significant first.
pub open spec fn decimal_value(d: Seq<char>) -> nat
    decreases d.len(),
{
    if d.len() == 0 {
        0
    } else {
        decimal_value(d.drop_last()) * 10 + (d.last() as u32 - 48) as nat
    }
}

/// A set index as an unsigned 32-bit decimal: an optional `+`, then one or more
/// digits, with a value that fits in `u32`.
pub open spec fn set_index_of(s: Seq<char>) -> Option<u32> {
    let d = if s.len() > 0 && s[0] == '+' {
        s.drop_first()
    } else {
        s
    };
    if d.len() > 0 && all_decimal_digits(d) && decimal_value(d) <= u32::MAX {
        Some(decimal_value(d) as u32)
    } else {
        None
    }
}

/// The set index written after the prefix `p` of `s`.
pub open spec fn set_after(s: Seq<char>, p: Seq<char>) -> Option<u32> {
    set_index_of(s.skip(p.len() as int))
}

/// Classification of an attribute name, rules tried in order.
pub open spec fn classify(s: Seq<char>) -> Option<SemanticModel> {
    if s == "NORMAL"@ {
        Some(SemanticModel::Normals)
    } else if s == "POSITION"@ {
        Some(SemanticModel::Positions)
    } else if s == "TANGENT"@ {
        Some(SemanticModel::Tangents)
    } else if s.len() > 0 && s[0] == '_' {
        Some(SemanticModel::Extras(s.drop_first()))
    } else if starts_with(s, "COLOR_"@) {
        match set_after(s, "COLOR_"@) {
            Some(n) => Some(SemanticModel::Colors(n)),
            None => None,
        }
    } else if starts_with(s, "TEXCOORD_"@) {
        match set_after(s, "TEXCOORD_"@) {
            Some(n) => Some(SemanticModel::TexCoords(n)),
            None => None,
        }
    } else if starts_with(s, "JOINTS_"@) {
        match set_after(s, "JOINTS_"@) {
            Some(n) => Some(SemanticModel::Joints(n)),
            None => None,
        }
    } else if starts_with(s, "WEIGHTS_"@) {
        match set_after(s, "WEIGHTS_"@) {
            Some(n) => Some(SemanticModel::Weights(n)),
            None => None,
        }
    } else {
        None
    }
}

proof fn lemma_prefix_value_le(d: Seq<char>, k: int)
    requires
        0 <= k <= d.len(),
        all_decimal_digits(d),
    ensures
        decimal_value(d.subrange(0, k)) <= decimal_value(d),
    decreases d.len() - k,
{
    if k < d.len() {
        let e = d.subrange(0, k + 1);
        assert(e.drop_last() =~= d.subrange(0, k));
        assert(is_decimal_digit(d[k]));
        lemma_prefix_value_le(d, k + 1);
    } else {
        assert(d.subrange(0, k) =~= d);
    }
}

fn str_starts_with(s: &str, p: &str) -> (r: bool)
    ensures
        r == starts_with(s@, p@),
{
    let n = s.unicode_len();
    let m = p.unicode_len();
    if m > n {
        return false;
    }
    let mut i: usize = 0;
    while i < m
        invariant
            n == s@.len(),
            m == p@.len(),
            m <= n,
            i <= m,
            forall|j: int| 0 <= j < i ==> s@[j] == p@[j],
        decreases m - i,
    {
        if s.get_char(i) != p.get_char(i) {
            assert(s@.subrange(0, m as int)[i as int] != p@[i as int]);
            return false;
        }
        i = i + 1;
    }
    assert(s@.subrange(0, m as int) =~= p@);
    true
}

fn str_equals(s: &str, p: &str) -> (r: bool)
    ensures
        r == (s@ == p@),
{
    if s.unicode_len() != p.unicode_len() {
        return false;
    }
    let r = str_starts_with(s, p);
    assert(s@.subrange(0, s@.len() as int) =~= s@);
    r
}

/// Reads a set index: an optional `+` and decimal digits, within `u32`.
pub fn parse_set_index(s: &str) -> (r: Option<u32>)
    ensures
        r == set_index_of(s@),
{
    let n = s.unicode_len();
    let mut start: usize = 0;
    if n > 0 && s.get_char(0) == '+' {
        start = 1;
    }
    let ghost d = if start == 1 {
        s@.drop_first()
    } else {
        s@
    };
    assert(d =~= s@.subrange(start as int, n as int));
    assert(set_index_of(s@) == if d.len() > 0 && all_decimal_digits(d) && decimal_value(d)
        <= u32::MAX {
        Some(decimal_value(d) as u32)
    } else {
        None
    });
    if start == n {
        return None;
    }
    let mut v: u64 = 0;
    let mut i: usize = start;
    while i < n
        invariant
            n == s@.len(),
            start < n,
            start <= i <= n,
            d == s@.subrange(start as int, n as int),
            set_index_of(s@) == if d.len() > 0 && all_decimal_digits(d) && decimal_value(d)
                <= u32::MAX {
                Some(decimal_value(d) as u32)
            } else {
                None
            },
            all_decimal_digits(d.subrange(0, i - start)),
            v == decimal_value(d.subrange(0, i - start)),
            v <= u32::MAX,
        decreases n - i,
    {
        let c = s.get_char(i);
        if !((c as u32) >= 48 && (c as u32) <= 57) {
            assert(d[i - start] == c);
            assert(!is_decimal_digit(d[i - start]));
            assert(!all_decimal_digits(d));
            return None;
        }
        let ghost prev = d.subrange(0, i - start);
        let ghost next = d.subrange(0, i + 1 - start);
        assert(next.drop_last() =~= prev);
        assert(next.last() == c);
        v = v * 10 + ((c as u32) - 48) as u64;
        assert(v == decimal_value(next));
        assert(all_decimal_digits(next)) by {
            assert forall|j: int| 0 <= j < next.len() implies is_decimal_digit(#[trigger] next[j]) by {
                if j < prev.len() {
                    assert(next[j] == prev[j]);
                }
            }
        }
        if v > u32::MAX as u64 {
            proof {
                if all_decimal_digits(d) {
                    lemma_prefix_value_le(d, i + 1 - start);
                    assert(decimal_value(d) > u32::MAX);
                }
            }
            return None;
        }
        i = i + 1;
    }
    assert(d.subrange(0, n - start) =~= d);
    Some(v as u32)
}

/// Classifies an attribute name.
pub trait SemanticCheck {
    fn checked(s: &str) -> (r: Checked<Semantic>)
        ensures
            r@ == classify(s@),
    ;
}

fn numbered_set(s: &str, p: &str) -> (r: Option<u32>)
    requires
        starts_with(s@, p@),
    ensures
        r == set_after(s@, p@),
{
    let n = s.unicode_len();
    let m = p.unicode_len();
    let rest = s.substring_char(m, n);
    assert(rest@ =~= s@.skip(m as int));
    parse_set_index(rest)
}

impl SemanticCheck for Semantic {
    fn checked(s: &str) -> (r: Checked<Semantic>) {
        proof {
            reveal_strlit("NORMAL");
            reveal_strlit("POSITION");
            reveal_strlit("TANGENT");
            reveal_strlit("_");
            reveal_strlit("COLOR_");
            reveal_strlit("TEXCOORD_");
            reveal_strlit("JOINTS_");
            reveal_strlit("WEIGHTS_");
            assert("_"@ =~= seq!['_']);
            if s@.len() > 0 {
                let head = s@.subrange(0, 1);
                assert(head =~= seq![s@[0]]);
                if s@[0] == '_' {
                    assert(head =~= "_"@);
                } else {
                    assert(head[0] != "_"@[0]);
                }
            }
            assert(starts_with(s@, "_"@) <==> (s@.len() > 0 && s@[0] == '_'));
        }
        if str_equals(s, "NORMAL") {
            Checked::Valid(Semantic::Normals)
        } else if str_equals(s, "POSITION") {
            Checked::Valid(Semantic::Positions)
        } else if str_equals(s, "TANGENT") {
            Checked::Valid(Semantic::Tangents)
        } else if str_starts_with(s, "_") {
            let n = s.unicode_len();
            let name = s.substring_char(1, n).to_owned();
            assert(name@ =~= s@.drop_first());
            Checked::Valid(Semantic::Extras(name))
        } else if str_starts_with(s, "COLOR_") {
            match numbered_set(s, "COLOR_") {
                Some(n) => Checked::Valid(Semantic::Colors(n)),
                None => Checked::Invalid,
            }
        } else if str_starts_with(s, "TEXCOORD_") {
            match numbered_set(s, "TEXCOORD_") {
                Some(n) => Checked::Valid(Semantic::TexCoords(n)),
                None => Checked::Invalid,
            }
        } else if str_starts_with(s, "JOINTS_") {
            match numbered_set(s, "JOINTS_") {
                Some(n) => Checked::Valid(Semantic::Joints(n)),
                None => Checked::Invalid,
            }
        } else if str_starts_with(s, "WEIGHTS_") {
            match numbered_set(s, "WEIGHTS_") {
                Some(n) => Checked::Valid(Semantic::Weights(n)),
                None => Checked::Invalid,
            }
        } else {
            Checked::Invalid
        }
    }
}

} // verus!
