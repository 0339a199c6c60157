//! The Latin layout: macron and breve vowels, entered by a combining key
//! before or after the vowel.

use vstd::prelude::*;

use crate::compose::{compose_fold, compose_vec, mark_of, CompositionMap};
use crate::kbdwriter::{add_all, KbdMap, KbdMetaData, KbdMetaModel, KbdWriter};
use crate::textops::{chars_to_string, upper_char, upper_first_of};

verus! {

/// The vowel keys the Latin layout decorates.
pub open spec fn latin_vowels() -> Seq<char> {
    seq!['a', 'e', 'i', 'o', 'u', 'y']
}

/// The key sequence for one decorated vowel: the combining key after the
/// vowel (postfix) or before it.
pub open spec fn latin_key(c: char, combine: char, postfix: bool) -> Seq<char> {
    if postfix {
        seq![c, combine]
    } else {
        seq![combine, c]
    }
}

/// The output for one decorated vowel: the vowel composed with the mark.
pub open spec fn latin_value(c: char, mark: char) -> Seq<char> {
    compose_fold(seq![c, mark])
}

/// The candidate rules of one Latin section: for each vowel, its
/// lowercase and uppercase decorated forms, in order.
pub open spec fn latin_cands(vs: Seq<char>, combine: char, mark: char, postfix: bool) -> Seq<
    (Seq<char>, Seq<char>),
>
    decreases vs.len(),
{
    if vs.len() == 0 {
        Seq::empty()
    } else {
        latin_cands(vs.drop_last(), combine, mark, postfix) + seq![
            (latin_key(vs.last(), combine, postfix), latin_value(vs.last(), mark)),
            (
                latin_key(upper_first_of(vs.last()), combine, postfix),
                latin_value(upper_first_of(vs.last()), mark),
            ),
        ]
    }
}

/// One Latin section in full: the candidates registered in order.
pub open spec fn latin_section(combine: char, mark: char, postfix: bool) -> Seq<
    (Seq<char>, Seq<char>),
> {
    add_all(Seq::empty(), latin_cands(latin_vowels(), combine, mark, postfix))
}

fn fill_latin_map(combine: char, mark: char, postfix: bool) -> (r: KbdMap)
    ensures
        r@ == latin_section(combine, mark, postfix),
        r.wf(),
{
    let vowels: Vec<char> = vec!['a', 'e', 'i', 'o', 'u', 'y'];
    proof {
        assert(vowels@ =~= latin_vowels());
    }
    let mut map = KbdMap::new();
    let mut i: usize = 0;
    proof {
        assert(vowels@.take(0) =~= Seq::<char>::empty());
        assert(map@ =~= add_all(
            Seq::empty(),
            latin_cands(vowels@.take(0), combine, mark, postfix),
        ));
    }
    while i < 6
        invariant
            vowels@ == latin_vowels(),
            i <= 6,
            map.wf(),
            map@ == add_all(Seq::empty(), latin_cands(vowels@.take(i as int), combine, mark, postfix)),
        decreases 6 - i,
    {
        let ghost m_before = map@;
        let v = vowels[i];
        let ghost e1 = (latin_key(v, combine, postfix), latin_value(v, mark));
        let ghost e2 = (
            latin_key(upper_first_of(v), combine, postfix),
            latin_value(upper_first_of(v), mark),
        );
        let lower_key = if postfix {
            chars_to_string(&vec![v, combine])
        } else {
            chars_to_string(&vec![combine, v])
        };
        let lower_val = chars_to_string(&compose_vec(vec![v, mark]));
        proof {
            assert(lower_key@ =~= e1.0);
            assert(lower_val@ == e1.1);
        }
        map.add(lower_key, lower_val);
        proof {
            assert(map@ == crate::kbdwriter::add_one(m_before, e1));
        }
        let ghost m_mid = map@;
        let u = upper_char(v);
        let upper_key = if postfix {
            chars_to_string(&vec![u, combine])
        } else {
            chars_to_string(&vec![combine, u])
        };
        let upper_val = chars_to_string(&compose_vec(vec![u, mark]));
        proof {
            assert(upper_key@ =~= e2.0);
            assert(upper_val@ == e2.1);
        }
        map.add(upper_key, upper_val);
        proof {
            assert(map@ == crate::kbdwriter::add_one(m_mid, e2));
        }
        i += 1;
        proof {
            let vs = vowels@.take(i as int);
            assert(vs.drop_last() =~= vowels@.take(i - 1));
            assert(vs.last() == vowels@[i - 1]);
            let prev = latin_cands(vowels@.take(i - 1), combine, mark, postfix);
            assert(latin_cands(vs, combine, mark, postfix) == prev + seq![e1, e2]);
            crate::kbdwriter::lemma_add_all_concat(Seq::empty(), prev, seq![e1, e2]);
            assert(seq![e1, e2].drop_last() =~= seq![e1]);
            assert(seq![e1].drop_last() =~= Seq::<(Seq<char>, Seq<char>)>::empty());
            assert(seq![e1, e2].last() == e2);
            assert(seq![e1].last() == e1);
            assert(add_all(m_before, Seq::<(Seq<char>, Seq<char>)>::empty()) == m_before);
            assert(add_all(m_before, seq![e1]) == crate::kbdwriter::add_one(
                add_all(m_before, seq![e1].drop_last()),
                seq![e1].last(),
            ));
            assert(add_all(m_before, seq![e1]) == crate::kbdwriter::add_one(m_before, e1));
            assert(add_all(m_before, seq![e1, e2]) == crate::kbdwriter::add_one(m_mid, e2));
            assert(map@ == add_all(Seq::empty(), latin_cands(vs, combine, mark, postfix)));
        }
    }
    proof {
        assert(vowels@.take(6) =~= latin_vowels());
    }
    map
}

/// Fills `keyboard` with the Latin layout: metadata and the `macrons`
/// and `breve` sections, each decorating every vowel in lowercase and
/// uppercase, postfix or prefix as requested.
pub fn gen(keyboard: &mut KbdWriter, postfix: bool)
    ensures
        final(keyboard)@.metadata == Some(
            KbdMetaModel {
                language: "Lingua Latina"@,
                language_code: "la"@,
                description: "Latin with macrons and breve"@,
            },
        ),
        final(keyboard)@.sections == old(keyboard)@.sections.push(
            ("macrons"@, latin_section(';', mark_of("macron"@), postfix)),
        ).push(("breve"@, latin_section('-', mark_of("breve"@), postfix))),
        old(keyboard).wf() ==> final(keyboard).wf(),
{
    let compositions = CompositionMap::new();
    keyboard.set_metadata(
        KbdMetaData::new(
            String::from_str("Lingua Latina"),
            String::from_str("la"),
            String::from_str("Latin with macrons and breve"),
        ),
    );

    let macron_mark = compositions.above("macron");
    let macron_map = fill_latin_map(';', macron_mark, postfix);
    keyboard.write_section(String::from_str("macrons"), macron_map);

    let breve_mark = compositions.above("breve");
    let breve_map = fill_latin_map('-', breve_mark, postfix);
    keyboard.write_section(String::from_str("breve"), breve_map);
}

} // verus!
