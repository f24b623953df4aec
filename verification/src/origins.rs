use vstd::prelude::*;

use crate::parser::texts;
use crate::printer::{origin_limit, spec_origin_limit};

verus! {

/// One value recorded in a file's `kMDItemWhereFroms` attribute.
///
/// Spotlight documents the attribute as a list of strings, but a value of any
/// other kind can occur; it is kept as `Other`.
#[derive(Debug, PartialEq, Eq)]
pub enum OriginValue {
    /// A string value: an origin URL.
    Text(String),
    /// A value that is not a string.
    Other,
}

/// The string values among `values`, in order.
pub open spec fn text_values(values: Seq<OriginValue>) -> Seq<Seq<char>>
    decreases values.len(),
{
    if values.len() == 0 {
        Seq::empty()
    } else {
        let front = text_values(values.drop_last());
        match values.last() {
            OriginValue::Text(s) => front.push(s@),
            OriginValue::Other => front,
        }
    }
}

/// Extract string origins from the `kMDItemWhereFroms` values.
///
/// Spotlight documents this attribute as an array of strings, but we still
/// skip any value that is not a string.
pub fn wherefrom_origins(values: &Vec<OriginValue>) -> (origins: Vec<String>)
    ensures
        texts(origins@) == text_values(values@),
{
    let mut origins: Vec<String> = Vec::new();
    let mut i: usize = 0;
    proof {
        assert(values@.take(0) =~= Seq::<OriginValue>::empty());
        assert(texts(origins@) =~= Seq::<Seq<char>>::empty());
    }
    while i < values.len()
        invariant
            0 <= i <= values@.len(),
            texts(origins@) == text_values(values@.take(i as int)),
        decreases values@.len() - i,
    {
        let ghost before = texts(origins@);
        match &values[i] {
            OriginValue::Text(s) => {
                origins.push(s.clone());
                proof {
                    assert(texts(origins@) =~= before.push(s@));
                }
            },
            OriginValue::Other => {},
        }
        proof {
            assert(values@.take(i + 1).drop_last() =~= values@.take(i as int));
            assert(values@.take(i + 1).last() == values@[i as int]);
        }
        i += 1;
    }
    proof {
        assert(values@.take(i as int) =~= values@);
    }
    origins
}

/// Keeps the origins that a run prints for one file: every one with `all`,
/// otherwise only the first.
pub fn selected_origins(origins: Vec<String>, all: bool) -> (printed: Vec<String>)
    requires
        origins@.len() <= isize::MAX,
    ensures
        texts(printed@) == texts(origins@).take(spec_origin_limit(origins@.len() as int, all)),
{
    let limit = origin_limit(origins.len() as isize, all);
    let mut printed = origins;
    printed.truncate(limit as usize);
    proof {
        assert(texts(printed@) =~= texts(origins@).take(spec_origin_limit(origins@.len() as int, all)));
    }
    printed
}

/// Law: extracting origins commutes with concatenation: the origins of two
/// lists of values, one after the other, are those of each list in turn.
pub proof fn law_text_values_concat(a: Seq<OriginValue>, b: Seq<OriginValue>)
    ensures
        text_values(a + b) == text_values(a) + text_values(b),
    decreases b.len(),
{
    if b.len() == 0 {
        assert(a + b =~= a);
        assert(text_values(a) + text_values(b) =~= text_values(a));
    } else {
        law_text_values_concat(a, b.drop_last());
        assert((a + b).drop_last() =~= a + b.drop_last());
        assert((a + b).last() == b.last());
        match b.last() {
            OriginValue::Text(s) => {
                assert(text_values(a) + text_values(b.drop_last()).push(s@) =~= (text_values(a)
                    + text_values(b.drop_last())).push(s@));
            },
            OriginValue::Other => {},
        }
    }
}

/// Law: when every value is a string, every value is an origin, in order;
/// there are never more origins than values.
pub proof fn law_text_values_all_strings(values: Seq<OriginValue>)
    ensures
        text_values(values).len() <= values.len(),
        (forall|i: int| 0 <= i < values.len() ==> #[trigger] values[i] is Text) ==> text_values(values)
            == values.map_values(|v: OriginValue| v->Text_0@),
    decreases values.len(),
{
    if values.len() > 0 {
        law_text_values_all_strings(values.drop_last());
        if forall|i: int| 0 <= i < values.len() ==> #[trigger] values[i] is Text {
            assert forall|i: int| 0 <= i < values.drop_last().len() implies #[trigger] values.drop_last()[i] is Text by {
                assert(values.drop_last()[i] == values[i]);
            }
            assert(values[values.len() - 1] is Text);
            assert(text_values(values) =~= values.map_values(|v: OriginValue| v->Text_0@));
        }
    }
}

/// Law: a run prints at most one origin per file unless `--all` is given,
/// and with `--all` it prints every origin; what it prints comes first in
/// the recorded order.
pub proof fn law_selected_origins(origins: Seq<Seq<char>>, all: bool)
    ensures
        ({
            let printed = origins.take(spec_origin_limit(origins.len() as int, all));
            &&& !all ==> printed.len() == if origins.len() == 0 { 0int } else { 1int }
            &&& all ==> printed == origins
            &&& printed.is_prefix_of(origins)
        }),
{
    let printed = origins.take(spec_origin_limit(origins.len() as int, all));
    assert(origins.take(origins.len() as int) =~= origins);
    assert(printed.is_prefix_of(origins));
}

} // verus!
