//! The Ancient Greek layout: consonants by transliteration, and vowels
//! decorated with any combination of length, accent, breathing, iota
//! subscript and diaresis, each entered through modifier keys.

use vstd::prelude::*;

use crate::compose::{compose_fold, compose_vec, known_mark, mark_of, CompositionMap};
use crate::kbdwriter::{
    add_all, add_one, lemma_add_all_concat, lemma_add_all_one, KbdMap, KbdMetaData, KbdMetaModel,
    KbdWriter,
};
use crate::textops::{char_to_string, chars_of, chars_to_string, str_eq, upper_char, upper_first_of,
    upper_str, upper_str_of};

verus! {

/// The modifier names the Greek layout knows.
pub open spec fn known_modifier(name: Seq<char>) -> bool {
    ||| name == "special"@
    ||| name == "macron"@
    ||| name == "acute"@
    ||| name == "grave"@
    ||| name == "circumflex"@
    ||| name == "smooth"@
    ||| name == "rough"@
    ||| name == "iota"@
    ||| name == "diaresis"@
    ||| name == "breve"@
}

/// The key a modifier is typed with.
pub open spec fn modifier_key_of(name: Seq<char>) -> char {
    if name == "special"@ { 'q' }
    else if name == "macron"@ { 'w' }
    else if name == "acute"@ { ';' }
    else if name == "grave"@ { '\'' }
    else if name == "circumflex"@ { '[' }
    else if name == "smooth"@ { ':' }
    else if name == "rough"@ { '"' }
    else if name == "iota"@ { ']' }
    else if name == "diaresis"@ { '{' }
    else { '}' }
}

/// The combining-mark name a modifier contributes to the output, if any.
pub open spec fn modifier_mark_of(name: Seq<char>) -> Option<Seq<char>> {
    if name == "special"@ { None }
    else if name == "macron"@ { Some("macron"@) }
    else if name == "acute"@ { Some("acute"@) }
    else if name == "grave"@ { Some("grave"@) }
    else if name == "circumflex"@ { Some("periposmeni"@) }
    else if name == "smooth"@ { Some("comma"@) }
    else if name == "rough"@ { Some("reversed comma"@) }
    else if name == "iota"@ { Some("iota"@) }
    else if name == "diaresis"@ { Some("diaresis"@) }
    else { Some("breve"@) }
}

fn modifier_key(name: &str) -> (r: char)
    requires
        known_modifier(name@),
    ensures
        r == modifier_key_of(name@),
{
    if str_eq(name, "special") { 'q' }
    else if str_eq(name, "macron") { 'w' }
    else if str_eq(name, "acute") { ';' }
    else if str_eq(name, "grave") { '\'' }
    else if str_eq(name, "circumflex") { '[' }
    else if str_eq(name, "smooth") { ':' }
    else if str_eq(name, "rough") { '"' }
    else if str_eq(name, "iota") { ']' }
    else if str_eq(name, "diaresis") { '{' }
    else if str_eq(name, "breve") { '}' }
    else { vstd::pervasive::unreached() }
}

fn modifier_mark(name: &str) -> (r: Option<&'static str>)
    requires
        known_modifier(name@),
    ensures
        match r {
            Some(s) => modifier_mark_of(name@) == Some(s@) && known_mark(s@),
            None => modifier_mark_of(name@) is None,
        },
{
    if str_eq(name, "special") { None }
    else if str_eq(name, "macron") { Some("macron") }
    else if str_eq(name, "acute") { Some("acute") }
    else if str_eq(name, "grave") { Some("grave") }
    else if str_eq(name, "circumflex") { Some("periposmeni") }
    else if str_eq(name, "smooth") { Some("comma") }
    else if str_eq(name, "rough") { Some("reversed comma") }
    else if str_eq(name, "iota") { Some("iota") }
    else if str_eq(name, "diaresis") { Some("diaresis") }
    else if str_eq(name, "breve") { Some("breve") }
    else { vstd::pervasive::unreached() }
}

/// The views of a list of borrowed strings.
pub open spec fn str_views(ms: Seq<&str>) -> Seq<Seq<char>> {
    ms.map_values(|s: &str| s@)
}

/// Whether every name in the list is a known modifier.
pub open spec fn all_modifiers(names: Seq<Seq<char>>) -> bool {
    forall|i: int| 0 <= i < names.len() ==> known_modifier(#[trigger] names[i])
}

/// The keys of a modifier list, in order.
pub open spec fn mod_keys(names: Seq<Seq<char>>) -> Seq<char>
    decreases names.len(),
{
    if names.len() == 0 {
        Seq::empty()
    } else {
        mod_keys(names.drop_last()).push(modifier_key_of(names.last()))
    }
}

/// The combining marks of a modifier list, in order, skipping modifiers
/// that contribute none.
pub open spec fn mod_marks(names: Seq<Seq<char>>) -> Seq<char>
    decreases names.len(),
{
    if names.len() == 0 {
        Seq::empty()
    } else {
        mod_marks(names.drop_last()) + (match modifier_mark_of(names.last()) {
            Some(mn) => seq![mark_of(mn)],
            None => Seq::empty(),
        })
    }
}

fn modifier_keys(mods: &Vec<&str>) -> (r: Vec<char>)
    requires
        all_modifiers(str_views(mods@)),
    ensures
        r@ == mod_keys(str_views(mods@)),
{
    let mut r: Vec<char> = Vec::new();
    let n = mods.len();
    let mut i: usize = 0;
    proof {
        assert(str_views(mods@).take(0) =~= Seq::<Seq<char>>::empty());
        assert(r@ =~= mod_keys(str_views(mods@).take(0)));
    }
    while i < n
        invariant
            n == mods@.len(),
            i <= n,
            all_modifiers(str_views(mods@)),
            r@ == mod_keys(str_views(mods@).take(i as int)),
        decreases n - i,
    {
        proof {
            assert(str_views(mods@)[i as int] == mods@[i as int]@);
        }
        r.push(modifier_key(mods[i]));
        i += 1;
        proof {
            let t = str_views(mods@).take(i as int);
            assert(t.drop_last() =~= str_views(mods@).take(i - 1));
            assert(t.last() == str_views(mods@)[i - 1]);
            assert(r@ =~= mod_keys(t));
        }
    }
    proof {
        assert(str_views(mods@).take(n as int) =~= str_views(mods@));
    }
    r
}

fn modifier_marks(mods: &Vec<&str>, compositions: &CompositionMap) -> (r: Vec<char>)
    requires
        all_modifiers(str_views(mods@)),
    ensures
        r@ == mod_marks(str_views(mods@)),
{
    let mut r: Vec<char> = Vec::new();
    let n = mods.len();
    let mut i: usize = 0;
    proof {
        assert(str_views(mods@).take(0) =~= Seq::<Seq<char>>::empty());
        assert(r@ =~= mod_marks(str_views(mods@).take(0)));
    }
    while i < n
        invariant
            n == mods@.len(),
            i <= n,
            all_modifiers(str_views(mods@)),
            r@ == mod_marks(str_views(mods@).take(i as int)),
        decreases n - i,
    {
        proof {
            assert(str_views(mods@)[i as int] == mods@[i as int]@);
        }
        match modifier_mark(mods[i]) {
            Some(mn) => {
                r.push(compositions.above(mn));
            },
            None => {},
        }
        i += 1;
        proof {
            let t = str_views(mods@).take(i as int);
            assert(t.drop_last() =~= str_views(mods@).take(i - 1));
            assert(t.last() == str_views(mods@)[i - 1]);
            assert(r@ =~= mod_marks(t));
        }
    }
    proof {
        assert(str_views(mods@).take(n as int) =~= str_views(mods@));
    }
    r
}

/// A character, uppercased when capitals are being generated.
pub open spec fn cap_char(c: char, capitals: bool) -> char {
    if capitals {
        upper_first_of(c)
    } else {
        c
    }
}

/// Short-vowel candidates of one modifier set: for each vowel key, the
/// key followed by the modifier keys, mapped to the vowel composed with
/// the modifiers' marks.
pub open spec fn gv_short_cands(
    keys: Seq<char>,
    vowels: Seq<char>,
    mods: Seq<Seq<char>>,
    capitals: bool,
) -> Seq<(Seq<char>, Seq<char>)>
    decreases vowels.len(),
{
    if vowels.len() == 0 {
        Seq::empty()
    } else {
        gv_short_cands(keys.drop_last(), vowels.drop_last(), mods, capitals) + seq![
            (
                seq![cap_char(keys.last(), capitals)] + mod_keys(mods),
                compose_fold(seq![cap_char(vowels.last(), capitals)] + mod_marks(mods)),
            ),
        ]
    }
}

/// Long-vowel candidates: as the short ones, with the macron key between
/// the vowel key and the other modifier keys; the long vowel itself
/// already carries its length, so no extra mark is composed in.
pub open spec fn gv_long_cands(
    keys: Seq<char>,
    vowels: Seq<char>,
    mods: Seq<Seq<char>>,
    capitals: bool,
) -> Seq<(Seq<char>, Seq<char>)>
    decreases vowels.len(),
{
    if vowels.len() == 0 {
        Seq::empty()
    } else {
        gv_long_cands(keys.drop_last(), vowels.drop_last(), mods, capitals) + seq![
            (
                seq![cap_char(keys.last(), capitals), modifier_key_of("macron"@)] + mod_keys(mods),
                compose_fold(seq![cap_char(vowels.last(), capitals)] + mod_marks(mods)),
            ),
        ]
    }
}

/// The `(short, long)` selection, defaulting to both.
pub open spec fn sel_of(s: Option<(bool, bool)>) -> (bool, bool) {
    match s {
        Some(p) => p,
        None => (true, true),
    }
}

/// All candidates of one [`gen_vowels`] call.
pub open spec fn gv_cands(
    keys_s: Seq<char>,
    vowels_s: Seq<char>,
    keys_l: Seq<char>,
    vowels_l: Seq<char>,
    mods: Seq<Seq<char>>,
    sel: Option<(bool, bool)>,
    capitals: bool,
) -> Seq<(Seq<char>, Seq<char>)> {
    (if sel_of(sel).0 {
        gv_short_cands(keys_s, vowels_s, mods, capitals)
    } else {
        Seq::empty()
    }) + (if sel_of(sel).1 {
        gv_long_cands(keys_l, vowels_l, mods, capitals)
    } else {
        Seq::empty()
    })
}

/// The key sequence of one vowel candidate: the (possibly uppercased)
/// vowel key, then the given prefix keys.
fn build_key(letter: char, extra: Option<char>, mod_key_chars: &Vec<char>) -> (r: String)
    ensures
        r@ == (match extra {
            Some(e) => seq![letter, e],
            None => seq![letter],
        }) + mod_key_chars@,
{
    let mut v: Vec<char> = Vec::new();
    v.push(letter);
    match extra {
        Some(e) => v.push(e),
        None => {},
    }
    let n = mod_key_chars.len();
    let mut i: usize = 0;
    let ghost base = v@;
    proof {
        assert(v@ =~= base + mod_key_chars@.take(0));
    }
    while i < n
        invariant
            n == mod_key_chars@.len(),
            i <= n,
            v@ == base + mod_key_chars@.take(i as int),
        decreases n - i,
    {
        v.push(mod_key_chars[i]);
        i += 1;
        proof {
            assert(v@ =~= base + mod_key_chars@.take(i as int));
        }
    }
    proof {
        assert(mod_key_chars@.take(n as int) =~= mod_key_chars@);
    }
    chars_to_string(&v)
}

/// The output of one vowel candidate: the (possibly uppercased) vowel
/// composed with the modifier marks.
fn build_value(vowel: char, marks: &Vec<char>) -> (r: String)
    ensures
        r@ == compose_fold(seq![vowel] + marks@),
{
    let mut v: Vec<char> = Vec::new();
    v.push(vowel);
    let n = marks.len();
    let mut i: usize = 0;
    proof {
        assert(v@ =~= seq![vowel] + marks@.take(0));
    }
    while i < n
        invariant
            n == marks@.len(),
            i <= n,
            v@ == seq![vowel] + marks@.take(i as int),
        decreases n - i,
    {
        v.push(marks[i]);
        i += 1;
        proof {
            assert(v@ =~= seq![vowel] + marks@.take(i as int));
        }
    }
    proof {
        assert(marks@.take(n as int) =~= marks@);
    }
    chars_to_string(&compose_vec(v))
}

/// Registers one vowel class: for each short vowel (when selected), the
/// key followed by the modifier keys; for each long vowel (when
/// selected), the key, the macron key, then the modifier keys.  Outputs
/// are the vowels composed with the modifiers' combining marks.  With
/// `capitals`, keys and vowels are uppercased.
fn gen_vowels(
    map: &mut KbdMap,
    modifiers: &Vec<&str>,
    vowel_key_short: &Vec<char>,
    short_vowels: &Vec<char>,
    vowel_key_long: &Vec<char>,
    long_vowels: &Vec<char>,
    compositions: &CompositionMap,
    short_or_long_selector: Option<(bool, bool)>,
    capitals: bool,
)
    requires
        old(map).wf(),
        all_modifiers(str_views(modifiers@)),
        vowel_key_short@.len() == short_vowels@.len(),
        vowel_key_long@.len() == long_vowels@.len(),
    ensures
        final(map).wf(),
        final(map)@ == add_all(
            old(map)@,
            gv_cands(
                vowel_key_short@,
                short_vowels@,
                vowel_key_long@,
                long_vowels@,
                str_views(modifiers@),
                short_or_long_selector,
                capitals,
            ),
        ),
{
    let (do_short, do_long) = match short_or_long_selector {
        Some(p) => p,
        None => (true, true),
    };
    let mod_key_chars = modifier_keys(modifiers);
    let mod_mark_chars = modifier_marks(modifiers, compositions);
    let ghost mods = str_views(modifiers@);
    let ghost m0 = map@;
    let ghost short_part = if do_short {
        gv_short_cands(vowel_key_short@, short_vowels@, mods, capitals)
    } else {
        Seq::<(Seq<char>, Seq<char>)>::empty()
    };
    if do_short {
        let n = short_vowels.len();
        let mut i: usize = 0;
        proof {
            assert(vowel_key_short@.take(0) =~= Seq::<char>::empty());
            assert(short_vowels@.take(0) =~= Seq::<char>::empty());
        }
        while i < n
            invariant
                n == short_vowels@.len(),
                n == vowel_key_short@.len(),
                i <= n,
                map.wf(),
                mods == str_views(modifiers@),
                mod_key_chars@ == mod_keys(mods),
                mod_mark_chars@ == mod_marks(mods),
                map@ == add_all(
                    m0,
                    gv_short_cands(
                        vowel_key_short@.take(i as int),
                        short_vowels@.take(i as int),
                        mods,
                        capitals,
                    ),
                ),
            decreases n - i,
        {
            let ghost m_before = map@;
            let key_letter = if capitals {
                upper_char(vowel_key_short[i])
            } else {
                vowel_key_short[i]
            };
            let vowel = if capitals {
                upper_char(short_vowels[i])
            } else {
                short_vowels[i]
            };
            let ghost e = (
                seq![cap_char(vowel_key_short@[i as int], capitals)] + mod_keys(mods),
                compose_fold(
                    seq![cap_char(short_vowels@[i as int], capitals)] + mod_marks(mods),
                ),
            );
            let key = build_key(key_letter, None, &mod_key_chars);
            let value = build_value(vowel, &mod_mark_chars);
            map.add(key, value);
            proof {
                assert(map@ == add_one(m_before, e));
            }
            i += 1;
            proof {
                let ks = vowel_key_short@.take(i as int);
                let vs = short_vowels@.take(i as int);
                assert(ks.drop_last() =~= vowel_key_short@.take(i - 1));
                assert(vs.drop_last() =~= short_vowels@.take(i - 1));
                let prev = gv_short_cands(
                    vowel_key_short@.take(i - 1),
                    short_vowels@.take(i - 1),
                    mods,
                    capitals,
                );
                assert(gv_short_cands(ks, vs, mods, capitals) == prev + seq![e]);
                lemma_add_all_concat(m0, prev, seq![e]);
                lemma_add_all_one(add_all(m0, prev), e);
            }
        }
        proof {
            assert(vowel_key_short@.take(n as int) =~= vowel_key_short@);
            assert(short_vowels@.take(n as int) =~= short_vowels@);
        }
    }
    proof {
        assert(map@ == add_all(m0, short_part));
    }
    let ghost m1 = map@;
    let ghost long_part = if do_long {
        gv_long_cands(vowel_key_long@, long_vowels@, mods, capitals)
    } else {
        Seq::<(Seq<char>, Seq<char>)>::empty()
    };
    if do_long {
        let macron_key = modifier_key("macron");
        let n = long_vowels.len();
        let mut i: usize = 0;
        proof {
            assert(vowel_key_long@.take(0) =~= Seq::<char>::empty());
            assert(long_vowels@.take(0) =~= Seq::<char>::empty());
        }
        while i < n
            invariant
                n == long_vowels@.len(),
                n == vowel_key_long@.len(),
                i <= n,
                map.wf(),
                mods == str_views(modifiers@),
                mod_key_chars@ == mod_keys(mods),
                mod_mark_chars@ == mod_marks(mods),
                macron_key == modifier_key_of("macron"@),
                map@ == add_all(
                    m1,
                    gv_long_cands(
                        vowel_key_long@.take(i as int),
                        long_vowels@.take(i as int),
                        mods,
                        capitals,
                    ),
                ),
            decreases n - i,
        {
            let ghost m_before = map@;
            let key_letter = if capitals {
                upper_char(vowel_key_long[i])
            } else {
                vowel_key_long[i]
            };
            let vowel = if capitals {
                upper_char(long_vowels[i])
            } else {
                long_vowels[i]
            };
            let ghost e = (
                seq![cap_char(vowel_key_long@[i as int], capitals), modifier_key_of("macron"@)]
                    + mod_keys(mods),
                compose_fold(seq![cap_char(long_vowels@[i as int], capitals)] + mod_marks(mods)),
            );
            let key = build_key(key_letter, Some(macron_key), &mod_key_chars);
            let value = build_value(vowel, &mod_mark_chars);
            map.add(key, value);
            proof {
                assert(map@ == add_one(m_before, e));
            }
            i += 1;
            proof {
                let ks = vowel_key_long@.take(i as int);
                let vs = long_vowels@.take(i as int);
                assert(ks.drop_last() =~= vowel_key_long@.take(i - 1));
                assert(vs.drop_last() =~= long_vowels@.take(i - 1));
                let prev = gv_long_cands(
                    vowel_key_long@.take(i - 1),
                    long_vowels@.take(i - 1),
                    mods,
                    capitals,
                );
                assert(gv_long_cands(ks, vs, mods, capitals) == prev + seq![e]);
                lemma_add_all_concat(m1, prev, seq![e]);
                lemma_add_all_one(add_all(m1, prev), e);
            }
        }
        proof {
            assert(vowel_key_long@.take(n as int) =~= vowel_key_long@);
            assert(long_vowels@.take(n as int) =~= long_vowels@);
        }
    }
    proof {
        assert(map@ == add_all(m1, long_part));
        lemma_add_all_concat(m0, short_part, long_part);
        assert(map@ == add_all(
            m0,
            gv_cands(
                vowel_key_short@,
                short_vowels@,
                vowel_key_long@,
                long_vowels@,
                mods,
                short_or_long_selector,
                capitals,
            ),
        ));
    }
}

/// The vowel key and vowel lists one accent class is generated from.
#[verifier::ext_equal]
pub struct VowelSets {
    /// Keys of the plain short vowels.
    pub vk: Seq<char>,
    /// Keys of the vowels whose length is ambiguous (for the circumflex).
    pub vka: Seq<char>,
    /// Keys of the ambiguous vowels that take an iota subscript.
    pub vkia: Seq<char>,
    /// The short vowels.
    pub sv: Seq<char>,
    /// The ambiguous vowels.
    pub av: Seq<char>,
    /// The ambiguous vowels that take an iota subscript.
    pub iva: Seq<char>,
    /// Keys of the long vowels that take an iota subscript.
    pub vkil: Seq<char>,
    /// The long vowels.
    pub lv: Seq<char>,
    /// The long vowels that take an iota subscript.
    pub ivl: Seq<char>,
}

/// The iota-subscript candidates of one accent class, generated only for
/// lowercase classes.
pub open spec fn iota_cands(
    mods: Seq<Seq<char>>,
    s: VowelSets,
    iotable: bool,
    capitals: bool,
) -> Seq<(Seq<char>, Seq<char>)> {
    if iotable && !capitals {
        gv_cands(s.vkia, s.iva, s.vkil, s.ivl, mods.push("iota"@), None, capitals)
    } else {
        Seq::empty()
    }
}

/// All candidates of one accent class: the base modifiers alone, then
/// with acute, grave and circumflex, each optionally with the iota
/// subscript; the circumflex only decorates vowels of ambiguous length.
pub open spec fn class_cands(
    base: Seq<Seq<char>>,
    s: VowelSets,
    iotable: bool,
    capitals: bool,
) -> Seq<(Seq<char>, Seq<char>)> {
    gv_cands(s.vk, s.sv, s.vk, s.lv, base, None, capitals) + iota_cands(base, s, iotable, capitals)
        + gv_cands(s.vk, s.sv, s.vk, s.lv, base.push("acute"@), None, capitals) + iota_cands(
        base.push("acute"@),
        s,
        iotable,
        capitals,
    ) + gv_cands(s.vk, s.sv, s.vk, s.lv, base.push("grave"@), None, capitals) + iota_cands(
        base.push("grave"@),
        s,
        iotable,
        capitals,
    ) + gv_cands(s.vka, s.av, s.vk, s.lv, base.push("circumflex"@), None, capitals) + iota_cands(
        base.push("circumflex"@),
        s,
        iotable,
        capitals,
    )
}

/// A fresh modifier list: the base list with up to two names appended.
fn with_extra<'a>(base: &Vec<&'a str>, e1: Option<&'a str>, e2: Option<&'a str>) -> (r: Vec<
    &'a str,
>)
    ensures
        str_views(r@) == str_views(base@) + (match e1 {
            Some(s) => seq![s@],
            None => Seq::<Seq<char>>::empty(),
        }) + (match e2 {
            Some(s) => seq![s@],
            None => Seq::<Seq<char>>::empty(),
        }),
{
    let mut r: Vec<&str> = Vec::new();
    let n = base.len();
    let mut i: usize = 0;
    while i < n
        invariant
            n == base@.len(),
            i <= n,
            r@ == base@.take(i as int),
        decreases n - i,
    {
        r.push(base[i]);
        i += 1;
        proof {
            assert(r@ =~= base@.take(i as int));
        }
    }
    proof {
        assert(base@.take(n as int) =~= base@);
    }
    match e1 {
        Some(s) => r.push(s),
        None => {},
    }
    match e2 {
        Some(s) => r.push(s),
        None => {},
    }
    proof {
        assert(str_views(r@) =~= str_views(base@) + (match e1 {
            Some(s) => seq![s@],
            None => Seq::<Seq<char>>::empty(),
        }) + (match e2 {
            Some(s) => seq![s@],
            None => Seq::<Seq<char>>::empty(),
        }));
    }
    r
}

/// The [`VowelSets`] of a list of executable vowel vectors.
pub open spec fn sets_of(
    vk: Seq<char>,
    vka: Seq<char>,
    vkia: Seq<char>,
    sv: Seq<char>,
    av: Seq<char>,
    iva: Seq<char>,
    vkil: Seq<char>,
    lv: Seq<char>,
    ivl: Seq<char>,
) -> VowelSets {
    VowelSets { vk, vka, vkia, sv, av, iva, vkil, lv, ivl }
}

/// Registers one accent class: the base modifiers, then acute, grave and
/// circumflex variants, each with its iota-subscript forms when the class
/// is lowercase and the vowels take one.
fn gen_class(
    map: &mut KbdMap,
    base_modifiers: &Vec<&str>,
    vowel_key: &Vec<char>,
    vowel_key_ambiguous: &Vec<char>,
    vowel_key_iotable_ambiguous: &Vec<char>,
    short_vowels: &Vec<char>,
    ambiguous_vowels: &Vec<char>,
    iotable_vowels_ambiguous: &Vec<char>,
    vowel_key_iotable_long: &Vec<char>,
    long_vowels: &Vec<char>,
    iotable_vowels_long: &Vec<char>,
    compositions: &CompositionMap,
    iotable: bool,
    capitals: bool,
)
    requires
        old(map).wf(),
        all_modifiers(str_views(base_modifiers@)),
        vowel_key@.len() == short_vowels@.len(),
        vowel_key@.len() == long_vowels@.len(),
        vowel_key_ambiguous@.len() == ambiguous_vowels@.len(),
        vowel_key_iotable_ambiguous@.len() == iotable_vowels_ambiguous@.len(),
        vowel_key_iotable_long@.len() == iotable_vowels_long@.len(),
    ensures
        final(map).wf(),
        final(map)@ == add_all(
            old(map)@,
            class_cands(
                str_views(base_modifiers@),
                sets_of(
                    vowel_key@,
                    vowel_key_ambiguous@,
                    vowel_key_iotable_ambiguous@,
                    short_vowels@,
                    ambiguous_vowels@,
                    iotable_vowels_ambiguous@,
                    vowel_key_iotable_long@,
                    long_vowels@,
                    iotable_vowels_long@,
                ),
                iotable,
                capitals,
            ),
        ),
{
    let ghost base = str_views(base_modifiers@);
    let ghost s = sets_of(
        vowel_key@,
        vowel_key_ambiguous@,
        vowel_key_iotable_ambiguous@,
        short_vowels@,
        ambiguous_vowels@,
        iotable_vowels_ambiguous@,
        vowel_key_iotable_long@,
        long_vowels@,
        iotable_vowels_long@,
    );
    let ghost m0 = map@;
    let ghost c1 = gv_cands(s.vk, s.sv, s.vk, s.lv, base, None, capitals);
    let ghost c2 = iota_cands(base, s, iotable, capitals);
    let ghost c3 = gv_cands(s.vk, s.sv, s.vk, s.lv, base.push("acute"@), None, capitals);
    let ghost c4 = iota_cands(base.push("acute"@), s, iotable, capitals);
    let ghost c5 = gv_cands(s.vk, s.sv, s.vk, s.lv, base.push("grave"@), None, capitals);
    let ghost c6 = iota_cands(base.push("grave"@), s, iotable, capitals);
    let ghost c7 = gv_cands(s.vka, s.av, s.vk, s.lv, base.push("circumflex"@), None, capitals);
    let ghost c8 = iota_cands(base.push("circumflex"@), s, iotable, capitals);

    gen_vowels(
        map,
        base_modifiers,
        vowel_key,
        short_vowels,
        vowel_key,
        long_vowels,
        compositions,
        None,
        capitals,
    );
    proof {
        assert(map@ == add_all(m0, c1));
    }
    if iotable && !capitals {
        let mods = with_extra(base_modifiers, Some("iota"), None);
        proof {
            assert(str_views(mods@) =~= base.push("iota"@));
        }
        gen_vowels(
            map,
            &mods,
            vowel_key_iotable_ambiguous,
            iotable_vowels_ambiguous,
            vowel_key_iotable_long,
            iotable_vowels_long,
            compositions,
            None,
            capitals,
        );
    }
    proof {
        if iotable && !capitals {
            lemma_add_all_concat(m0, c1, c2);
        } else {
            assert(c1 + c2 =~= c1);
        }
        assert(map@ == add_all(m0, c1 + c2));
    }
    let acute_mods = with_extra(base_modifiers, Some("acute"), None);
    proof {
        assert(str_views(acute_mods@) =~= base.push("acute"@));
    }
    gen_vowels(
        map,
        &acute_mods,
        vowel_key,
        short_vowels,
        vowel_key,
        long_vowels,
        compositions,
        None,
        capitals,
    );
    proof {
        lemma_add_all_concat(m0, c1 + c2, c3);
        assert(map@ == add_all(m0, c1 + c2 + c3));
    }
    if iotable && !capitals {
        let mods = with_extra(base_modifiers, Some("acute"), Some("iota"));
        proof {
            assert(str_views(mods@) =~= base.push("acute"@).push("iota"@));
        }
        gen_vowels(
            map,
            &mods,
            vowel_key_iotable_ambiguous,
            iotable_vowels_ambiguous,
            vowel_key_iotable_long,
            iotable_vowels_long,
            compositions,
            None,
            capitals,
        );
    }
    proof {
        if iotable && !capitals {
            lemma_add_all_concat(m0, c1 + c2 + c3, c4);
        } else {
            assert(c1 + c2 + c3 + c4 =~= c1 + c2 + c3);
        }
        assert(map@ == add_all(m0, c1 + c2 + c3 + c4));
    }
    let grave_mods = with_extra(base_modifiers, Some("grave"), None);
    proof {
        assert(str_views(grave_mods@) =~= base.push("grave"@));
    }
    gen_vowels(
        map,
        &grave_mods,
        vowel_key,
        short_vowels,
        vowel_key,
        long_vowels,
        compositions,
        None,
        capitals,
    );
    proof {
        lemma_add_all_concat(m0, c1 + c2 + c3 + c4, c5);
        assert(map@ == add_all(m0, c1 + c2 + c3 + c4 + c5));
    }
    if iotable && !capitals {
        let mods = with_extra(base_modifiers, Some("grave"), Some("iota"));
        proof {
            assert(str_views(mods@) =~= base.push("grave"@).push("iota"@));
        }
        gen_vowels(
            map,
            &mods,
            vowel_key_iotable_ambiguous,
            iotable_vowels_ambiguous,
            vowel_key_iotable_long,
            iotable_vowels_long,
            compositions,
            None,
            capitals,
        );
    }
    proof {
        if iotable && !capitals {
            lemma_add_all_concat(m0, c1 + c2 + c3 + c4 + c5, c6);
        } else {
            assert(c1 + c2 + c3 + c4 + c5 + c6 =~= c1 + c2 + c3 + c4 + c5);
        }
        assert(map@ == add_all(m0, c1 + c2 + c3 + c4 + c5 + c6));
    }
    let circ_mods = with_extra(base_modifiers, Some("circumflex"), None);
    proof {
        assert(str_views(circ_mods@) =~= base.push("circumflex"@));
    }
    gen_vowels(
        map,
        &circ_mods,
        vowel_key_ambiguous,
        ambiguous_vowels,
        vowel_key,
        long_vowels,
        compositions,
        None,
        capitals,
    );
    proof {
        lemma_add_all_concat(m0, c1 + c2 + c3 + c4 + c5 + c6, c7);
        assert(map@ == add_all(m0, c1 + c2 + c3 + c4 + c5 + c6 + c7));
    }
    if iotable && !capitals {
        let mods = with_extra(base_modifiers, Some("circumflex"), Some("iota"));
        proof {
            assert(str_views(mods@) =~= base.push("circumflex"@).push("iota"@));
        }
        gen_vowels(
            map,
            &mods,
            vowel_key_iotable_ambiguous,
            iotable_vowels_ambiguous,
            vowel_key_iotable_long,
            iotable_vowels_long,
            compositions,
            None,
            capitals,
        );
    }
    proof {
        if iotable && !capitals {
            lemma_add_all_concat(m0, c1 + c2 + c3 + c4 + c5 + c6 + c7, c8);
        } else {
            assert(c1 + c2 + c3 + c4 + c5 + c6 + c7 + c8 =~= c1 + c2 + c3 + c4 + c5 + c6 + c7);
        }
        assert(map@ == add_all(m0, c1 + c2 + c3 + c4 + c5 + c6 + c7 + c8));
        assert(class_cands(base, s, iotable, capitals) == c1 + c2 + c3 + c4 + c5 + c6 + c7 + c8);
    }
}

/// Registers one accent class in lowercase and then in uppercase.
fn gen_class_both(
    map: &mut KbdMap,
    base_modifiers: &Vec<&str>,
    vowel_key: &Vec<char>,
    vowel_key_ambiguous: &Vec<char>,
    vowel_key_iotable_ambiguous: &Vec<char>,
    short_vowels: &Vec<char>,
    ambiguous_vowels: &Vec<char>,
    iotable_vowels_ambiguous: &Vec<char>,
    vowel_key_iotable_long: &Vec<char>,
    long_vowels: &Vec<char>,
    iotable_vowels_long: &Vec<char>,
    compositions: &CompositionMap,
    iotable: bool,
)
    requires
        old(map).wf(),
        all_modifiers(str_views(base_modifiers@)),
        vowel_key@.len() == short_vowels@.len(),
        vowel_key@.len() == long_vowels@.len(),
        vowel_key_ambiguous@.len() == ambiguous_vowels@.len(),
        vowel_key_iotable_ambiguous@.len() == iotable_vowels_ambiguous@.len(),
        vowel_key_iotable_long@.len() == iotable_vowels_long@.len(),
    ensures
        final(map).wf(),
        final(map)@ == add_all(
            old(map)@,
            class_cands(
                str_views(base_modifiers@),
                sets_of(
                    vowel_key@,
                    vowel_key_ambiguous@,
                    vowel_key_iotable_ambiguous@,
                    short_vowels@,
                    ambiguous_vowels@,
                    iotable_vowels_ambiguous@,
                    vowel_key_iotable_long@,
                    long_vowels@,
                    iotable_vowels_long@,
                ),
                iotable,
                false,
            ) + class_cands(
                str_views(base_modifiers@),
                sets_of(
                    vowel_key@,
                    vowel_key_ambiguous@,
                    vowel_key_iotable_ambiguous@,
                    short_vowels@,
                    ambiguous_vowels@,
                    iotable_vowels_ambiguous@,
                    vowel_key_iotable_long@,
                    long_vowels@,
                    iotable_vowels_long@,
                ),
                iotable,
                true,
            ),
        ),
{
    let ghost m0 = map@;
    gen_class(
        map,
        base_modifiers,
        vowel_key,
        vowel_key_ambiguous,
        vowel_key_iotable_ambiguous,
        short_vowels,
        ambiguous_vowels,
        iotable_vowels_ambiguous,
        vowel_key_iotable_long,
        long_vowels,
        iotable_vowels_long,
        compositions,
        iotable,
        false,
    );
    gen_class(
        map,
        base_modifiers,
        vowel_key,
        vowel_key_ambiguous,
        vowel_key_iotable_ambiguous,
        short_vowels,
        ambiguous_vowels,
        iotable_vowels_ambiguous,
        vowel_key_iotable_long,
        long_vowels,
        iotable_vowels_long,
        compositions,
        iotable,
        true,
    );
    proof {
        let base = str_views(base_modifiers@);
        let s = sets_of(
            vowel_key@,
            vowel_key_ambiguous@,
            vowel_key_iotable_ambiguous@,
            short_vowels@,
            ambiguous_vowels@,
            iotable_vowels_ambiguous@,
            vowel_key_iotable_long@,
            long_vowels@,
            iotable_vowels_long@,
        );
        lemma_add_all_concat(
            m0,
            class_cands(base, s, iotable, false),
            class_cands(base, s, iotable, true),
        );
    }
}

/// Registers one vowel class in lowercase and then in uppercase.
fn gen_vowels_both(
    map: &mut KbdMap,
    modifiers: &Vec<&str>,
    vowel_key_short: &Vec<char>,
    short_vowels: &Vec<char>,
    vowel_key_long: &Vec<char>,
    long_vowels: &Vec<char>,
    compositions: &CompositionMap,
    short_or_long_selector: Option<(bool, bool)>,
)
    requires
        old(map).wf(),
        all_modifiers(str_views(modifiers@)),
        vowel_key_short@.len() == short_vowels@.len(),
        vowel_key_long@.len() == long_vowels@.len(),
    ensures
        final(map).wf(),
        final(map)@ == add_all(
            old(map)@,
            gv_cands(
                vowel_key_short@,
                short_vowels@,
                vowel_key_long@,
                long_vowels@,
                str_views(modifiers@),
                short_or_long_selector,
                false,
            ) + gv_cands(
                vowel_key_short@,
                short_vowels@,
                vowel_key_long@,
                long_vowels@,
                str_views(modifiers@),
                short_or_long_selector,
                true,
            ),
        ),
{
    let ghost m0 = map@;
    gen_vowels(
        map,
        modifiers,
        vowel_key_short,
        short_vowels,
        vowel_key_long,
        long_vowels,
        compositions,
        short_or_long_selector,
        false,
    );
    gen_vowels(
        map,
        modifiers,
        vowel_key_short,
        short_vowels,
        vowel_key_long,
        long_vowels,
        compositions,
        short_or_long_selector,
        true,
    );
    proof {
        let mods = str_views(modifiers@);
        lemma_add_all_concat(
            m0,
            gv_cands(
                vowel_key_short@,
                short_vowels@,
                vowel_key_long@,
                long_vowels@,
                mods,
                short_or_long_selector,
                false,
            ),
            gv_cands(
                vowel_key_short@,
                short_vowels@,
                vowel_key_long@,
                long_vowels@,
                mods,
                short_or_long_selector,
                true,
            ),
        );
    }
}

/// The ten modifier keys of the layout.
pub open spec fn greek_modifiers() -> Seq<char> {
    seq!['q', 'w', ';', '\'', '[', ':', '"', ']', '{', '}']
}

/// Consonant transliterations: key sequence and Greek letter.
pub open spec fn greek_consonant_table() -> Seq<(Seq<char>, char)> {
    seq![
        ("b"@, 'β'), ("g"@, 'γ'), ("d"@, 'δ'), ("z"@, 'ζ'), ("th"@, 'θ'), ("k"@, 'κ'),
        ("l"@, 'λ'), ("m"@, 'μ'), ("n"@, 'ν'), ("ks"@, 'ξ'), ("p"@, 'π'), ("r"@, 'ρ'),
        ("s"@, 'σ'), ("t"@, 'τ'), ("ph"@, 'φ'), ("kh"@, 'χ'), ("ps"@, 'ψ'),
    ]
}

/// Doubled spellings for letters that already have a transliteration.
pub open spec fn greek_doubles_table() -> Seq<(Seq<char>, char)> {
    seq![("h"@, 'η'), ("c"@, 'κ'), ("f"@, 'φ'), ("ch"@, 'χ'), ("x"@, 'ξ'), ("v"@, 'ω')]
}

/// Punctuation behind the special modifier.
pub open spec fn greek_punct_table() -> Seq<(char, char)> {
    seq![('.', '·'), ('<', '«'), ('>', '»'), ('?', ';')]
}

/// The uppercase key sequence for a transliteration: the uppercased
/// sequence, except that a second character that is itself a modifier key
/// stays lowercase.
pub open spec fn greek_upper_key(k: Seq<char>) -> Seq<char> {
    let cap = upper_str_of(k);
    if cap.len() > 1 && k.len() > 1 && greek_modifiers().contains(k[1]) {
        cap.drop_last().push(k[1])
    } else {
        cap
    }
}

/// Consonant candidates: each transliteration in lowercase and uppercase.
pub open spec fn greek_cons_cands(t: Seq<(Seq<char>, char)>) -> Seq<(Seq<char>, Seq<char>)>
    decreases t.len(),
{
    if t.len() == 0 {
        Seq::empty()
    } else {
        let p = t.last();
        greek_cons_cands(t.drop_last()) + seq![
            (p.0, seq![p.1]),
            (greek_upper_key(p.0), upper_str_of(seq![p.1])),
        ]
    }
}

/// Final-consonant candidates: for the letter with a final form, its key
/// followed by a space.
pub open spec fn greek_final_cands(t: Seq<(Seq<char>, char)>) -> Seq<(Seq<char>, Seq<char>)>
    decreases t.len(),
{
    if t.len() == 0 {
        Seq::empty()
    } else {
        let p = t.last();
        greek_final_cands(t.drop_last()) + (if p.1 == 'σ' {
            seq![(p.0.push(' '), seq!['ς'])]
        } else {
            Seq::<(Seq<char>, Seq<char>)>::empty()
        })
    }
}

/// Punctuation candidates: the special modifier then the key.
pub open spec fn greek_punct_cands(t: Seq<(char, char)>) -> Seq<(Seq<char>, Seq<char>)>
    decreases t.len(),
{
    if t.len() == 0 {
        Seq::empty()
    } else {
        let p = t.last();
        greek_punct_cands(t.drop_last()) + seq![(seq!['q', p.0], seq![p.1])]
    }
}

/// The vowel sets of the standard accent classes.
pub open spec fn greek_sets() -> VowelSets {
    VowelSets {
        vk: seq!['a', 'e', 'i', 'o', 'u'],
        vka: seq!['a', 'i', 'u'],
        vkia: seq!['a'],
        sv: seq!['α', 'ε', 'ι', 'ο', 'υ'],
        av: seq!['α', 'ι', 'υ'],
        iva: seq!['α'],
        vkil: seq!['a', 'e', 'o'],
        lv: seq!['ᾱ', 'η', 'ῑ', 'ω', 'ῡ'],
        ivl: seq!['ᾱ', 'η', 'ω'],
    }
}

/// The vowel sets of the diaresis class.
pub open spec fn greek_diaresis_sets() -> VowelSets {
    VowelSets {
        vk: seq!['i', 'u'],
        vka: seq!['i', 'u'],
        vkia: seq!['a'],
        sv: seq!['ι', 'υ'],
        av: seq!['ι', 'υ'],
        iva: seq!['α'],
        vkil: seq!['a', 'e', 'o'],
        lv: seq!['ῑ', 'ῡ'],
        ivl: seq!['ᾱ', 'η', 'ω'],
    }
}

/// An accent class registered in lowercase and uppercase.
pub open spec fn class_both_cands(base: Seq<Seq<char>>, s: VowelSets, iotable: bool) -> Seq<
    (Seq<char>, Seq<char>),
> {
    class_cands(base, s, iotable, false) + class_cands(base, s, iotable, true)
}

/// The breve candidates: ambiguous vowels only, short forms only, in
/// lowercase and uppercase.
pub open spec fn greek_breve_cands() -> Seq<(Seq<char>, Seq<char>)> {
    gv_cands(
        seq!['a', 'i', 'u'],
        seq!['α', 'ι', 'υ'],
        seq!['a', 'i', 'u'],
        seq!['α', 'ι', 'υ'],
        seq!["breve"@],
        Some((true, false)),
        false,
    ) + gv_cands(
        seq!['a', 'i', 'u'],
        seq!['α', 'ι', 'υ'],
        seq!['a', 'i', 'u'],
        seq!['α', 'ι', 'υ'],
        seq!["breve"@],
        Some((true, false)),
        true,
    )
}

/// The eight Greek sections, in writing order, as registered maps.
pub open spec fn greek_sections() -> Seq<(Seq<char>, Seq<(Seq<char>, Seq<char>)>)> {
    seq![
        ("consonants"@, add_all(Seq::empty(), greek_cons_cands(greek_consonant_table()))),
        (
            "alphabet/consonant doubles"@,
            add_all(Seq::empty(), greek_cons_cands(greek_doubles_table())),
        ),
        ("final consonants"@, add_all(Seq::empty(), greek_final_cands(greek_consonant_table()))),
        ("punctuation"@, add_all(Seq::empty(), greek_punct_cands(greek_punct_table()))),
        (
            "accents without breathings"@,
            add_all(Seq::empty(), class_both_cands(Seq::empty(), greek_sets(), true)),
        ),
        (
            "accents exclusively without breathings"@,
            add_all(
                Seq::empty(),
                greek_breve_cands() + class_both_cands(
                    seq!["diaresis"@],
                    greek_diaresis_sets(),
                    false,
                ),
            ),
        ),
        (
            "smooth breathing"@,
            add_all(Seq::empty(), class_both_cands(seq!["smooth"@], greek_sets(), true)),
        ),
        (
            "rough breathing"@,
            add_all(Seq::empty(), class_both_cands(seq!["rough"@], greek_sets(), true)),
        ),
    ]
}

fn contains_char(v: &Vec<char>, c: char) -> (r: bool)
    ensures
        r == v@.contains(c),
{
    let n = v.len();
    let mut i: usize = 0;
    while i < n
        invariant
            n == v@.len(),
            i <= n,
            forall|j: int| 0 <= j < i ==> v@[j] != c,
        decreases n - i,
    {
        if v[i] == c {
            return true;
        }
        i += 1;
    }
    false
}

fn upper_key_exec(k: &str, modifiers: &Vec<char>) -> (r: String)
    requires
        modifiers@ == greek_modifiers(),
    ensures
        r@ == greek_upper_key(k@),
{
    let cap = upper_str(k);
    let cap_chars = chars_of(cap.as_str());
    let klen = k.unicode_len();
    if cap_chars.len() > 1 && klen > 1 {
        let last = k.get_char(1);
        if contains_char(modifiers, last) {
            let mut v = cap_chars;
            v.pop();
            v.push(last);
            proof {
                assert(v@ =~= upper_str_of(k@).drop_last().push(k@[1]));
            }
            return chars_to_string(&v);
        }
    }
    cap
}

fn greek_cons_map(table: &Vec<(&str, char)>, modifiers: &Vec<char>, Ghost(spec_table): Ghost<
    Seq<(Seq<char>, char)>,
>) -> (r: KbdMap)
    requires
        modifiers@ == greek_modifiers(),
        table@.map_values(|p: (&str, char)| (p.0@, p.1)) == spec_table,
    ensures
        r@ == add_all(Seq::empty(), greek_cons_cands(spec_table)),
        r.wf(),
{
    let mut map = KbdMap::new();
    let n = table.len();
    let mut i: usize = 0;
    proof {
        assert(spec_table.take(0) =~= Seq::<(Seq<char>, char)>::empty());
    }
    while i < n
        invariant
            n == table@.len(),
            table@.map_values(|p: (&str, char)| (p.0@, p.1)) == spec_table,
            modifiers@ == greek_modifiers(),
            i <= n,
            map.wf(),
            map@ == add_all(Seq::empty(), greek_cons_cands(spec_table.take(i as int))),
        decreases n - i,
    {
        let ghost m_before = map@;
        let (k, c) = table[i];
        proof {
            assert(spec_table[i as int] == (k@, c));
        }
        let ghost e1 = (k@, seq![c]);
        let ghost e2 = (greek_upper_key(k@), upper_str_of(seq![c]));
        map.add(String::from_str(k), char_to_string(c));
        proof {
            assert(map@ == add_one(m_before, e1));
        }
        let ghost m_mid = map@;
        let cap_key = upper_key_exec(k, modifiers);
        let cap_val = upper_str(char_to_string(c).as_str());
        map.add(cap_key, cap_val);
        proof {
            assert(map@ == add_one(m_mid, e2));
        }
        i += 1;
        proof {
            let t = spec_table.take(i as int);
            assert(t.drop_last() =~= spec_table.take(i - 1));
            assert(t.last() == spec_table[i - 1]);
            let prev = greek_cons_cands(spec_table.take(i - 1));
            assert(greek_cons_cands(t) == prev + seq![e1, e2]);
            lemma_add_all_concat(Seq::empty(), prev, seq![e1, e2]);
            crate::kbdwriter::lemma_add_all_two(m_before, e1, e2);
        }
    }
    proof {
        assert(spec_table.take(n as int) =~= spec_table);
    }
    map
}

fn greek_final_map(table: &Vec<(&str, char)>) -> (r: KbdMap)
    requires
        table@.map_values(|p: (&str, char)| (p.0@, p.1)) == greek_consonant_table(),
    ensures
        r@ == add_all(Seq::empty(), greek_final_cands(greek_consonant_table())),
        r.wf(),
{
    let ghost spec_table = greek_consonant_table();
    let mut map = KbdMap::new();
    let n = table.len();
    let mut i: usize = 0;
    proof {
        assert(spec_table.take(0) =~= Seq::<(Seq<char>, char)>::empty());
    }
    while i < n
        invariant
            n == table@.len(),
            table@.map_values(|p: (&str, char)| (p.0@, p.1)) == spec_table,
            spec_table == greek_consonant_table(),
            i <= n,
            map.wf(),
            map@ == add_all(Seq::empty(), greek_final_cands(spec_table.take(i as int))),
        decreases n - i,
    {
        let ghost m_before = map@;
        let (k, c) = table[i];
        proof {
            assert(spec_table[i as int] == (k@, c));
        }
        if c == 'σ' {
            let mut key_chars = chars_of(k);
            key_chars.push(' ');
            let ghost e = (k@.push(' '), seq!['ς']);
            map.add(chars_to_string(&key_chars), char_to_string('ς'));
            proof {
                assert(map@ == add_one(m_before, e));
            }
        }
        i += 1;
        proof {
            let t = spec_table.take(i as int);
            assert(t.drop_last() =~= spec_table.take(i - 1));
            assert(t.last() == spec_table[i - 1]);
            let prev = greek_final_cands(spec_table.take(i - 1));
            if spec_table[i - 1].1 == 'σ' {
                let e = (spec_table[i - 1].0.push(' '), seq!['ς']);
                assert(greek_final_cands(t) == prev + seq![e]);
                lemma_add_all_concat(Seq::empty(), prev, seq![e]);
                lemma_add_all_one(add_all(Seq::empty(), prev), e);
            } else {
                assert(greek_final_cands(t) =~= prev);
            }
        }
    }
    proof {
        assert(spec_table.take(n as int) =~= spec_table);
    }
    map
}

fn greek_punct_map() -> (r: KbdMap)
    ensures
        r@ == add_all(Seq::empty(), greek_punct_cands(greek_punct_table())),
        r.wf(),
{
    let table: Vec<(char, char)> = vec![('.', '·'), ('<', '«'), ('>', '»'), ('?', ';')];
    proof {
        assert(table@ =~= greek_punct_table());
    }
    let mut map = KbdMap::new();
    let n = table.len();
    let mut i: usize = 0;
    proof {
        assert(table@.take(0) =~= Seq::<(char, char)>::empty());
    }
    while i < n
        invariant
            n == table@.len(),
            table@ == greek_punct_table(),
            i <= n,
            map.wf(),
            map@ == add_all(Seq::empty(), greek_punct_cands(table@.take(i as int))),
        decreases n - i,
    {
        let ghost m_before = map@;
        let (p, c) = table[i];
        let ghost e = (seq!['q', p], seq![c]);
        map.add(chars_to_string(&vec!['q', p]), char_to_string(c));
        proof {
            assert(map@ == add_one(m_before, e));
        }
        i += 1;
        proof {
            let t = table@.take(i as int);
            assert(t.drop_last() =~= table@.take(i - 1));
            assert(t.last() == table@[i - 1]);
            let prev = greek_punct_cands(table@.take(i - 1));
            assert(greek_punct_cands(t) == prev + seq![e]);
            lemma_add_all_concat(Seq::empty(), prev, seq![e]);
            lemma_add_all_one(add_all(Seq::empty(), prev), e);
        }
    }
    proof {
        assert(table@.take(n as int) =~= table@);
    }
    map
}

/// Fills `keyboard` with the Ancient Greek layout: metadata and the
/// eight sections registered in writing order.
#[verifier::rlimit(100)]
pub fn gen(keyboard: &mut KbdWriter)
    ensures
        final(keyboard)@.metadata == Some(
            KbdMetaModel {
                language: "Ancient Greek"@,
                language_code: "grc"@,
                description: "Ancient Greek with extensions for macron and accents simultaneously"@,
            },
        ),
        final(keyboard)@.sections == old(keyboard)@.sections + greek_sections(),
        old(keyboard).wf() ==> final(keyboard).wf(),
{
    let compositions = CompositionMap::new();
    keyboard.set_metadata(
        KbdMetaData::new(
            String::from_str("Ancient Greek"),
            String::from_str("grc"),
            String::from_str("Ancient Greek with extensions for macron and accents simultaneously"),
        ),
    );

    let modifiers: Vec<char> = vec!['q', 'w', ';', '\'', '[', ':', '"', ']', '{', '}'];
    proof {
        assert(modifiers@ =~= greek_modifiers());
    }

    let consonants: Vec<(&str, char)> = vec![
        ("b", 'β'), ("g", 'γ'), ("d", 'δ'), ("z", 'ζ'), ("th", 'θ'), ("k", 'κ'),
        ("l", 'λ'), ("m", 'μ'), ("n", 'ν'), ("ks", 'ξ'), ("p", 'π'), ("r", 'ρ'),
        ("s", 'σ'), ("t", 'τ'), ("ph", 'φ'), ("kh", 'χ'), ("ps", 'ψ'),
    ];
    proof {
        assert(consonants@.map_values(|p: (&str, char)| (p.0@, p.1)) =~= greek_consonant_table());
    }
    let doubles: Vec<(&str, char)> = vec![
        ("h", 'η'), ("c", 'κ'), ("f", 'φ'), ("ch", 'χ'), ("x", 'ξ'), ("v", 'ω'),
    ];
    proof {
        assert(doubles@.map_values(|p: (&str, char)| (p.0@, p.1)) =~= greek_doubles_table());
    }

    let vowel_key: Vec<char> = vec!['a', 'e', 'i', 'o', 'u'];
    let short_vowels: Vec<char> = vec!['α', 'ε', 'ι', 'ο', 'υ'];
    let long_vowels: Vec<char> = vec!['ᾱ', 'η', 'ῑ', 'ω', 'ῡ'];
    let vowel_key_ambiguous: Vec<char> = vec!['a', 'i', 'u'];
    let ambiguous_vowels: Vec<char> = vec!['α', 'ι', 'υ'];
    let vowel_key_iotable_long: Vec<char> = vec!['a', 'e', 'o'];
    let iotable_vowels_long: Vec<char> = vec!['ᾱ', 'η', 'ω'];
    let vowel_key_iotable_ambiguous: Vec<char> = vec!['a'];
    let iotable_vowels_ambiguous: Vec<char> = vec!['α'];
    let vowel_key_diaresis: Vec<char> = vec!['i', 'u'];
    let diaresis_vowels: Vec<char> = vec!['ι', 'υ'];
    let diaresis_long_vowels: Vec<char> = vec!['ῑ', 'ῡ'];

    keyboard.write_section(
        String::from_str("consonants"),
        greek_cons_map(&consonants, &modifiers, Ghost(greek_consonant_table())),
    );
    keyboard.write_section(
        String::from_str("alphabet/consonant doubles"),
        greek_cons_map(&doubles, &modifiers, Ghost(greek_doubles_table())),
    );
    keyboard.write_section(String::from_str("final consonants"), greek_final_map(&consonants));
    keyboard.write_section(String::from_str("punctuation"), greek_punct_map());

    let empty_mods: Vec<&str> = Vec::new();
    let mut accents_map = KbdMap::new();
    proof {
        assert(str_views(empty_mods@) =~= Seq::<Seq<char>>::empty());
        assert(sets_of(
            vowel_key@,
            vowel_key_ambiguous@,
            vowel_key_iotable_ambiguous@,
            short_vowels@,
            ambiguous_vowels@,
            iotable_vowels_ambiguous@,
            vowel_key_iotable_long@,
            long_vowels@,
            iotable_vowels_long@,
        ) =~= greek_sets());
    }
    gen_class_both(
        &mut accents_map,
        &empty_mods,
        &vowel_key,
        &vowel_key_ambiguous,
        &vowel_key_iotable_ambiguous,
        &short_vowels,
        &ambiguous_vowels,
        &iotable_vowels_ambiguous,
        &vowel_key_iotable_long,
        &long_vowels,
        &iotable_vowels_long,
        &compositions,
        true,
    );
    proof {
        assert(accents_map@ == add_all(
            Seq::empty(),
            class_both_cands(Seq::empty(), greek_sets(), true),
        ));
    }
    keyboard.write_section(String::from_str("accents without breathings"), accents_map);

    let breve_mods: Vec<&str> = vec!["breve"];
    let mut accents_nobreath_map = KbdMap::new();
    proof {
        assert(str_views(breve_mods@) =~= seq!["breve"@]);
    }
    gen_vowels_both(
        &mut accents_nobreath_map,
        &breve_mods,
        &vowel_key_ambiguous,
        &ambiguous_vowels,
        &vowel_key_ambiguous,
        &ambiguous_vowels,
        &compositions,
        Some((true, false)),
    );
    proof {
        assert(accents_nobreath_map@ == add_all(Seq::empty(), greek_breve_cands()));
    }
    let diaresis_mods: Vec<&str> = vec!["diaresis"];
    proof {
        assert(str_views(diaresis_mods@) =~= seq!["diaresis"@]);
        assert(sets_of(
            vowel_key_diaresis@,
            vowel_key_diaresis@,
            vowel_key_iotable_ambiguous@,
            diaresis_vowels@,
            diaresis_vowels@,
            iotable_vowels_ambiguous@,
            vowel_key_iotable_long@,
            diaresis_long_vowels@,
            iotable_vowels_long@,
        ) =~= greek_diaresis_sets());
    }
    gen_class_both(
        &mut accents_nobreath_map,
        &diaresis_mods,
        &vowel_key_diaresis,
        &vowel_key_diaresis,
        &vowel_key_iotable_ambiguous,
        &diaresis_vowels,
        &diaresis_vowels,
        &iotable_vowels_ambiguous,
        &vowel_key_iotable_long,
        &diaresis_long_vowels,
        &iotable_vowels_long,
        &compositions,
        false,
    );
    proof {
        lemma_add_all_concat(
            Seq::empty(),
            greek_breve_cands(),
            class_both_cands(seq!["diaresis"@], greek_diaresis_sets(), false),
        );
    }
    keyboard.write_section(
        String::from_str("accents exclusively without breathings"),
        accents_nobreath_map,
    );

    let smooth_mods: Vec<&str> = vec!["smooth"];
    let mut smooth_breathing_map = KbdMap::new();
    proof {
        assert(str_views(smooth_mods@) =~= seq!["smooth"@]);
    }
    gen_class_both(
        &mut smooth_breathing_map,
        &smooth_mods,
        &vowel_key,
        &vowel_key_ambiguous,
        &vowel_key_iotable_ambiguous,
        &short_vowels,
        &ambiguous_vowels,
        &iotable_vowels_ambiguous,
        &vowel_key_iotable_long,
        &long_vowels,
        &iotable_vowels_long,
        &compositions,
        true,
    );
    keyboard.write_section(String::from_str("smooth breathing"), smooth_breathing_map);

    let rough_mods: Vec<&str> = vec!["rough"];
    let mut rough_breathing_map = KbdMap::new();
    proof {
        assert(str_views(rough_mods@) =~= seq!["rough"@]);
    }
    gen_class_both(
        &mut rough_breathing_map,
        &rough_mods,
        &vowel_key,
        &vowel_key_ambiguous,
        &vowel_key_iotable_ambiguous,
        &short_vowels,
        &ambiguous_vowels,
        &iotable_vowels_ambiguous,
        &vowel_key_iotable_long,
        &long_vowels,
        &iotable_vowels_long,
        &compositions,
        true,
    );
    keyboard.write_section(String::from_str("rough breathing"), rough_breathing_map);

    proof {
        assert(keyboard@.sections =~= old(keyboard)@.sections + greek_sections());
    }
}

} // verus!
