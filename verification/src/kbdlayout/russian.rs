//! The Russian phonetic layout: consonants and vowels by transliteration,
//! soft vowels and signs behind modifier keys, and acute-accented vowels.

use vstd::prelude::*;

use crate::compose::{compose_fold, compose_vec, mark_of, CompositionMap};
use crate::kbdwriter::{
    add_all, add_one, lemma_add_all_concat, lemma_add_all_three, lemma_add_all_two, KbdMap,
    KbdMetaData, KbdMetaModel, KbdWriter,
};
use crate::textops::{char_to_string, chars_to_string, upper_char, upper_first_of, upper_str, upper_str_of};

verus! {

/// Consonant transliterations: key sequence and Cyrillic letter.
pub open spec fn russian_consonant_table() -> Seq<(Seq<char>, char)> {
    seq![
        ("b"@, 'б'), ("v"@, 'в'), ("g"@, 'г'), ("d"@, 'д'), ("zh"@, 'ж'), ("z"@, 'з'),
        ("j"@, 'й'), ("k"@, 'к'), ("l"@, 'л'), ("m"@, 'м'), ("n"@, 'н'), ("p"@, 'п'),
        ("r"@, 'р'), ("s"@, 'с'), ("t"@, 'т'), ("f"@, 'ф'), ("h"@, 'х'), ("ts"@, 'ц'),
        ("ch"@, 'ч'), ("sh"@, 'ш'), ("sch"@, 'щ'),
    ]
}

/// Hard vowels (with the two i-type vowels), key and letter.
pub open spec fn russian_vowel_table() -> Seq<(char, char)> {
    seq![('a', 'а'), ('e', 'э'), ('o', 'о'), ('u', 'у'), ('i', 'и'), ('y', 'ы')]
}

/// Soft vowels, key and letter.
pub open spec fn russian_soft_vowel_table() -> Seq<(char, char)> {
    seq![('a', 'я'), ('e', 'е'), ('o', 'ё'), ('u', 'ю')]
}

/// The hard and soft signs, key and letter.
pub open spec fn russian_sign_table() -> Seq<(char, char)> {
    seq![('s', 'ь'), ('h', 'ъ')]
}

/// Consonant candidates: each transliteration in lowercase and uppercase.
pub open spec fn consonant_cands(t: Seq<(Seq<char>, char)>) -> Seq<(Seq<char>, Seq<char>)>
    decreases t.len(),
{
    if t.len() == 0 {
        Seq::empty()
    } else {
        let p = t.last();
        consonant_cands(t.drop_last()) + seq![
            (p.0, seq![p.1]),
            (upper_str_of(p.0), upper_str_of(seq![p.1])),
        ]
    }
}

/// Plain vowel candidates: each key in lowercase and uppercase.
pub open spec fn vowel_cands(t: Seq<(char, char)>) -> Seq<(Seq<char>, Seq<char>)>
    decreases t.len(),
{
    if t.len() == 0 {
        Seq::empty()
    } else {
        let p = t.last();
        vowel_cands(t.drop_last()) + seq![
            (seq![p.0], seq![p.1]),
            (seq![upper_first_of(p.0)], seq![upper_first_of(p.1)]),
        ]
    }
}

/// Soft vowel candidates: behind the soft modifier, in lowercase, full
/// uppercase, and modifier-only uppercase.
pub open spec fn soft_vowel_cands(t: Seq<(char, char)>, soft: char) -> Seq<(Seq<char>, Seq<char>)>
    decreases t.len(),
{
    if t.len() == 0 {
        Seq::empty()
    } else {
        let p = t.last();
        soft_vowel_cands(t.drop_last(), soft) + seq![
            (seq![soft, p.0], seq![p.1]),
            (seq![upper_first_of(soft), upper_first_of(p.0)], seq![upper_first_of(p.1)]),
            (seq![upper_first_of(soft), p.0], seq![upper_first_of(p.1)]),
        ]
    }
}

/// Acute hard-vowel candidates: key then the acute modifier, mapped to
/// the letter composed with the acute accent.
pub open spec fn acute_vowel_cands(t: Seq<(char, char)>, acc: char, mark: char) -> Seq<
    (Seq<char>, Seq<char>),
>
    decreases t.len(),
{
    if t.len() == 0 {
        Seq::empty()
    } else {
        let p = t.last();
        acute_vowel_cands(t.drop_last(), acc, mark) + seq![
            (seq![p.0, acc], compose_fold(seq![p.1, mark])),
            (seq![upper_first_of(p.0), acc], compose_fold(seq![upper_first_of(p.1), mark])),
        ]
    }
}

/// Acute soft-vowel candidates: soft modifier, vowel key, acute modifier.
pub open spec fn acute_soft_cands(t: Seq<(char, char)>, soft: char, acc: char, mark: char) -> Seq<
    (Seq<char>, Seq<char>),
>
    decreases t.len(),
{
    if t.len() == 0 {
        Seq::empty()
    } else {
        let p = t.last();
        acute_soft_cands(t.drop_last(), soft, acc, mark) + seq![
            (seq![soft, p.0, acc], compose_fold(seq![p.1, mark])),
            (
                seq![upper_first_of(soft), upper_first_of(p.0), acc],
                compose_fold(seq![upper_first_of(p.1), mark]),
            ),
            (
                seq![upper_first_of(soft), p.0, acc],
                compose_fold(seq![upper_first_of(p.1), mark]),
            ),
        ]
    }
}

/// Sign candidates: behind the sign modifier, key lowercase or uppercase,
/// both mapped to the same sign.
pub open spec fn sign_cands(t: Seq<(char, char)>, sign_mod: char) -> Seq<(Seq<char>, Seq<char>)>
    decreases t.len(),
{
    if t.len() == 0 {
        Seq::empty()
    } else {
        let p = t.last();
        sign_cands(t.drop_last(), sign_mod) + seq![
            (seq![sign_mod, p.0], seq![p.1]),
            (seq![sign_mod, upper_first_of(p.0)], seq![p.1]),
        ]
    }
}

/// The six Russian sections, in writing order, as registered maps.
pub open spec fn russian_sections() -> Seq<(Seq<char>, Seq<(Seq<char>, Seq<char>)>)> {
    seq![
        ("consonants"@, add_all(Seq::empty(), consonant_cands(russian_consonant_table()))),
        ("vowels"@, add_all(Seq::empty(), vowel_cands(russian_vowel_table()))),
        ("soft vowels"@, add_all(Seq::empty(), soft_vowel_cands(russian_soft_vowel_table(), 'j'))),
        (
            "acute hard vowels"@,
            add_all(
                Seq::empty(),
                acute_vowel_cands(russian_vowel_table(), ';', mark_of("acute"@)),
            ),
        ),
        (
            "acute soft vowels"@,
            add_all(
                Seq::empty(),
                acute_soft_cands(russian_soft_vowel_table(), 'j', ';', mark_of("acute"@)),
            ),
        ),
        ("signs"@, add_all(Seq::empty(), sign_cands(russian_sign_table(), 'q'))),
    ]
}

fn consonant_map() -> (r: KbdMap)
    ensures
        r@ == add_all(Seq::empty(), consonant_cands(russian_consonant_table())),
        r.wf(),
{
    let table: Vec<(&str, char)> = vec![
        ("b", 'б'), ("v", 'в'), ("g", 'г'), ("d", 'д'), ("zh", 'ж'), ("z", 'з'),
        ("j", 'й'), ("k", 'к'), ("l", 'л'), ("m", 'м'), ("n", 'н'), ("p", 'п'),
        ("r", 'р'), ("s", 'с'), ("t", 'т'), ("f", 'ф'), ("h", 'х'), ("ts", 'ц'),
        ("ch", 'ч'), ("sh", 'ш'), ("sch", 'щ'),
    ];
    proof {
        assert(table@.map_values(|p: (&str, char)| (p.0@, p.1)) =~= russian_consonant_table());
    }
    let ghost spec_table = russian_consonant_table();
    let mut map = KbdMap::new();
    let n = table.len();
    let mut i: usize = 0;
    proof {
        assert(spec_table.take(0) =~= Seq::<(Seq<char>, char)>::empty());
    }
    while i < n
        invariant
            n == table@.len(),
            table@.map_values(|p: (&str, char)| (p.0@, p.1)) == spec_table,
            spec_table == russian_consonant_table(),
            i <= n,
            map.wf(),
            map@ == add_all(Seq::empty(), consonant_cands(spec_table.take(i as int))),
        decreases n - i,
    {
        let ghost m_before = map@;
        let (k, c) = table[i];
        proof {
            assert(spec_table[i as int] == (k@, c));
        }
        let ghost e1 = (k@, seq![c]);
        let ghost e2 = (upper_str_of(k@), upper_str_of(seq![c]));
        map.add(String::from_str(k), char_to_string(c));
        proof {
            assert(map@ == add_one(m_before, e1));
        }
        let ghost m_mid = map@;
        let upper_val = upper_str(char_to_string(c).as_str());
        map.add(upper_str(k), upper_val);
        proof {
            assert(map@ == add_one(m_mid, e2));
        }
        i += 1;
        proof {
            let t = spec_table.take(i as int);
            assert(t.drop_last() =~= spec_table.take(i - 1));
            assert(t.last() == spec_table[i - 1]);
            let prev = consonant_cands(spec_table.take(i - 1));
            assert(consonant_cands(t) == prev + seq![e1, e2]);
            lemma_add_all_concat(Seq::empty(), prev, seq![e1, e2]);
            lemma_add_all_two(m_before, e1, e2);
        }
    }
    proof {
        assert(spec_table.take(n as int) =~= spec_table);
    }
    map
}

fn vowel_map() -> (r: KbdMap)
    ensures
        r@ == add_all(Seq::empty(), vowel_cands(russian_vowel_table())),
        r.wf(),
{
    let table: Vec<(char, char)> = vec![
        ('a', 'а'), ('e', 'э'), ('o', 'о'), ('u', 'у'), ('i', 'и'), ('y', 'ы'),
    ];
    proof {
        assert(table@ =~= russian_vowel_table());
    }
    let mut map = KbdMap::new();
    let n = table.len();
    let mut i: usize = 0;
    proof {
        assert(table@.take(0) =~= Seq::<(char, char)>::empty());
    }
    while i < n
        invariant
            n == table@.len(),
            table@ == russian_vowel_table(),
            i <= n,
            map.wf(),
            map@ == add_all(Seq::empty(), vowel_cands(table@.take(i as int))),
        decreases n - i,
    {
        let ghost m_before = map@;
        let (v, m) = table[i];
        let ghost e1 = (seq![v], seq![m]);
        let ghost e2 = (seq![upper_first_of(v)], seq![upper_first_of(m)]);
        map.add(char_to_string(v), char_to_string(m));
        proof {
            assert(map@ == add_one(m_before, e1));
        }
        let ghost m_mid = map@;
        map.add(char_to_string(upper_char(v)), char_to_string(upper_char(m)));
        proof {
            assert(map@ == add_one(m_mid, e2));
        }
        i += 1;
        proof {
            let t = table@.take(i as int);
            assert(t.drop_last() =~= table@.take(i - 1));
            assert(t.last() == table@[i - 1]);
            let prev = vowel_cands(table@.take(i - 1));
            assert(vowel_cands(t) == prev + seq![e1, e2]);
            lemma_add_all_concat(Seq::empty(), prev, seq![e1, e2]);
            lemma_add_all_two(m_before, e1, e2);
        }
    }
    proof {
        assert(table@.take(n as int) =~= table@);
    }
    map
}

fn soft_vowel_map() -> (r: KbdMap)
    ensures
        r@ == add_all(Seq::empty(), soft_vowel_cands(russian_soft_vowel_table(), 'j')),
        r.wf(),
{
    let table: Vec<(char, char)> = vec![('a', 'я'), ('e', 'е'), ('o', 'ё'), ('u', 'ю')];
    proof {
        assert(table@ =~= russian_soft_vowel_table());
    }
    let soft = 'j';
    let mut map = KbdMap::new();
    let n = table.len();
    let mut i: usize = 0;
    proof {
        assert(table@.take(0) =~= Seq::<(char, char)>::empty());
    }
    while i < n
        invariant
            n == table@.len(),
            table@ == russian_soft_vowel_table(),
            soft == 'j',
            i <= n,
            map.wf(),
            map@ == add_all(Seq::empty(), soft_vowel_cands(table@.take(i as int), 'j')),
        decreases n - i,
    {
        let ghost m_before = map@;
        let (v, m) = table[i];
        let ghost e1 = (seq![soft, v], seq![m]);
        let ghost e2 = (seq![upper_first_of(soft), upper_first_of(v)], seq![upper_first_of(m)]);
        let ghost e3 = (seq![upper_first_of(soft), v], seq![upper_first_of(m)]);
        map.add(chars_to_string(&vec![soft, v]), char_to_string(m));
        proof {
            assert(map@ == add_one(m_before, e1));
        }
        let ghost m_mid1 = map@;
        let soft_up = upper_char(soft);
        let v_up = upper_char(v);
        let m_up = upper_char(m);
        map.add(chars_to_string(&vec![soft_up, v_up]), char_to_string(m_up));
        proof {
            assert(map@ == add_one(m_mid1, e2));
        }
        let ghost m_mid2 = map@;
        map.add(chars_to_string(&vec![soft_up, v]), char_to_string(m_up));
        proof {
            assert(map@ == add_one(m_mid2, e3));
        }
        i += 1;
        proof {
            let t = table@.take(i as int);
            assert(t.drop_last() =~= table@.take(i - 1));
            assert(t.last() == table@[i - 1]);
            let prev = soft_vowel_cands(table@.take(i - 1), 'j');
            assert(soft_vowel_cands(t, 'j') == prev + seq![e1, e2, e3]);
            lemma_add_all_concat(Seq::empty(), prev, seq![e1, e2, e3]);
            lemma_add_all_three(m_before, e1, e2, e3);
        }
    }
    proof {
        assert(table@.take(n as int) =~= table@);
    }
    map
}

fn acute_vowel_map(mark: char) -> (r: KbdMap)
    ensures
        r@ == add_all(Seq::empty(), acute_vowel_cands(russian_vowel_table(), ';', mark)),
        r.wf(),
{
    let table: Vec<(char, char)> = vec![
        ('a', 'а'), ('e', 'э'), ('o', 'о'), ('u', 'у'), ('i', 'и'), ('y', 'ы'),
    ];
    proof {
        assert(table@ =~= russian_vowel_table());
    }
    let acc = ';';
    let mut map = KbdMap::new();
    let n = table.len();
    let mut i: usize = 0;
    proof {
        assert(table@.take(0) =~= Seq::<(char, char)>::empty());
    }
    while i < n
        invariant
            n == table@.len(),
            table@ == russian_vowel_table(),
            acc == ';',
            i <= n,
            map.wf(),
            map@ == add_all(Seq::empty(), acute_vowel_cands(table@.take(i as int), ';', mark)),
        decreases n - i,
    {
        let ghost m_before = map@;
        let (v, m) = table[i];
        let ghost e1 = (seq![v, acc], compose_fold(seq![m, mark]));
        let ghost e2 = (
            seq![upper_first_of(v), acc],
            compose_fold(seq![upper_first_of(m), mark]),
        );
        map.add(
            chars_to_string(&vec![v, acc]),
            chars_to_string(&compose_vec(vec![m, mark])),
        );
        proof {
            assert(map@ == add_one(m_before, e1));
        }
        let ghost m_mid = map@;
        let v_up = upper_char(v);
        let m_up = upper_char(m);
        map.add(
            chars_to_string(&vec![v_up, acc]),
            chars_to_string(&compose_vec(vec![m_up, mark])),
        );
        proof {
            assert(map@ == add_one(m_mid, e2));
        }
        i += 1;
        proof {
            let t = table@.take(i as int);
            assert(t.drop_last() =~= table@.take(i - 1));
            assert(t.last() == table@[i - 1]);
            let prev = acute_vowel_cands(table@.take(i - 1), ';', mark);
            assert(acute_vowel_cands(t, ';', mark) == prev + seq![e1, e2]);
            lemma_add_all_concat(Seq::empty(), prev, seq![e1, e2]);
            lemma_add_all_two(m_before, e1, e2);
        }
    }
    proof {
        assert(table@.take(n as int) =~= table@);
    }
    map
}

fn acute_soft_vowel_map(mark: char) -> (r: KbdMap)
    ensures
        r@ == add_all(
            Seq::empty(),
            acute_soft_cands(russian_soft_vowel_table(), 'j', ';', mark),
        ),
        r.wf(),
{
    let table: Vec<(char, char)> = vec![('a', 'я'), ('e', 'е'), ('o', 'ё'), ('u', 'ю')];
    proof {
        assert(table@ =~= russian_soft_vowel_table());
    }
    let soft = 'j';
    let acc = ';';
    let mut map = KbdMap::new();
    let n = table.len();
    let mut i: usize = 0;
    proof {
        assert(table@.take(0) =~= Seq::<(char, char)>::empty());
    }
    while i < n
        invariant
            n == table@.len(),
            table@ == russian_soft_vowel_table(),
            soft == 'j',
            acc == ';',
            i <= n,
            map.wf(),
            map@ == add_all(
                Seq::empty(),
                acute_soft_cands(table@.take(i as int), 'j', ';', mark),
            ),
        decreases n - i,
    {
        let ghost m_before = map@;
        let (v, m) = table[i];
        let ghost e1 = (seq![soft, v, acc], compose_fold(seq![m, mark]));
        let ghost e2 = (
            seq![upper_first_of(soft), upper_first_of(v), acc],
            compose_fold(seq![upper_first_of(m), mark]),
        );
        let ghost e3 = (
            seq![upper_first_of(soft), v, acc],
            compose_fold(seq![upper_first_of(m), mark]),
        );
        map.add(
            chars_to_string(&vec![soft, v, acc]),
            chars_to_string(&compose_vec(vec![m, mark])),
        );
        proof {
            assert(map@ == add_one(m_before, e1));
        }
        let ghost m_mid1 = map@;
        let soft_up = upper_char(soft);
        let v_up = upper_char(v);
        let m_up = upper_char(m);
        map.add(
            chars_to_string(&vec![soft_up, v_up, acc]),
            chars_to_string(&compose_vec(vec![m_up, mark])),
        );
        proof {
            assert(map@ == add_one(m_mid1, e2));
        }
        let ghost m_mid2 = map@;
        map.add(
            chars_to_string(&vec![soft_up, v, acc]),
            chars_to_string(&compose_vec(vec![m_up, mark])),
        );
        proof {
            assert(map@ == add_one(m_mid2, e3));
        }
        i += 1;
        proof {
            let t = table@.take(i as int);
            assert(t.drop_last() =~= table@.take(i - 1));
            assert(t.last() == table@[i - 1]);
            let prev = acute_soft_cands(table@.take(i - 1), 'j', ';', mark);
            assert(acute_soft_cands(t, 'j', ';', mark) == prev + seq![e1, e2, e3]);
            lemma_add_all_concat(Seq::empty(), prev, seq![e1, e2, e3]);
            lemma_add_all_three(m_before, e1, e2, e3);
        }
    }
    proof {
        assert(table@.take(n as int) =~= table@);
    }
    map
}

fn sign_map() -> (r: KbdMap)
    ensures
        r@ == add_all(Seq::empty(), sign_cands(russian_sign_table(), 'q')),
        r.wf(),
{
    let table: Vec<(char, char)> = vec![('s', 'ь'), ('h', 'ъ')];
    proof {
        assert(table@ =~= russian_sign_table());
    }
    let sign_mod = 'q';
    let mut map = KbdMap::new();
    let n = table.len();
    let mut i: usize = 0;
    proof {
        assert(table@.take(0) =~= Seq::<(char, char)>::empty());
    }
    while i < n
        invariant
            n == table@.len(),
            table@ == russian_sign_table(),
            sign_mod == 'q',
            i <= n,
            map.wf(),
            map@ == add_all(Seq::empty(), sign_cands(table@.take(i as int), 'q')),
        decreases n - i,
    {
        let ghost m_before = map@;
        let (k, sign) = table[i];
        let ghost e1 = (seq![sign_mod, k], seq![sign]);
        let ghost e2 = (seq![sign_mod, upper_first_of(k)], seq![sign]);
        map.add(chars_to_string(&vec![sign_mod, k]), char_to_string(sign));
        proof {
            assert(map@ == add_one(m_before, e1));
        }
        let ghost m_mid = map@;
        let k_up = upper_char(k);
        map.add(chars_to_string(&vec![sign_mod, k_up]), char_to_string(sign));
        proof {
            assert(map@ == add_one(m_mid, e2));
        }
        i += 1;
        proof {
            let t = table@.take(i as int);
            assert(t.drop_last() =~= table@.take(i - 1));
            assert(t.last() == table@[i - 1]);
            let prev = sign_cands(table@.take(i - 1), 'q');
            assert(sign_cands(t, 'q') == prev + seq![e1, e2]);
            lemma_add_all_concat(Seq::empty(), prev, seq![e1, e2]);
            lemma_add_all_two(m_before, e1, e2);
        }
    }
    proof {
        assert(table@.take(n as int) =~= table@);
    }
    map
}

/// Fills `keyboard` with the Russian phonetic layout: metadata and the
/// six sections registered in writing order.
pub fn gen(keyboard: &mut KbdWriter)
    ensures
        final(keyboard)@.metadata == Some(
            KbdMetaModel {
                language: "Russian Cyrillic"@,
                language_code: "rus"@,
                description: "Russian phonetic layout"@,
            },
        ),
        final(keyboard)@.sections == old(keyboard)@.sections + russian_sections(),
        old(keyboard).wf() ==> final(keyboard).wf(),
{
    let compositions = CompositionMap::new();
    keyboard.set_metadata(
        KbdMetaData::new(
            String::from_str("Russian Cyrillic"),
            String::from_str("rus"),
            String::from_str("Russian phonetic layout"),
        ),
    );
    let acute = compositions.above("acute");

    keyboard.write_section(String::from_str("consonants"), consonant_map());
    keyboard.write_section(String::from_str("vowels"), vowel_map());
    keyboard.write_section(String::from_str("soft vowels"), soft_vowel_map());
    keyboard.write_section(String::from_str("acute hard vowels"), acute_vowel_map(acute));
    keyboard.write_section(String::from_str("acute soft vowels"), acute_soft_vowel_map(acute));
    keyboard.write_section(String::from_str("signs"), sign_map());
    proof {
        assert(keyboard@.sections =~= old(keyboard)@.sections + russian_sections());
    }
}

} // verus!
