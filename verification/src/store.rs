//! Applying a sequence of decoded operations to an INI-style store.
//!
//! The store itself — `ini::Ini`, a section/key-value document — is an
//! outside collaborator; this module states its operations' effects
//! over a mathematical map model and verifies the applier's logic
//! against them: upserts, section and key removal, and the mandatory
//! pruning of a section once its last key is removed.

use vstd::prelude::*;

use crate::actions::Action;
use crate::commands::{Command, CommandModel};

verus! {

/// Declares the outside store type `ini::Ini`, an INI document of
/// sections holding key/value pairs.
#[verifier::external_type_specification]
#[verifier::external_body]
pub struct ExIni(ini::Ini);

/// Declares the outside type `ini::Properties`, the key/value pairs of
/// one section.
#[verifier::external_type_specification]
#[verifier::external_body]
pub struct ExProperties(ini::Properties);

/// The mathematical content of a store: each present section, keyed by
/// `None` for the default section, mapped to its key/value pairs.
pub type StoreModel = Map<Option<Seq<char>>, Map<Seq<char>, Seq<char>>>;

/// The sections a store holds, as a map of maps.
pub uninterp spec fn ini_sections(store: ini::Ini) -> StoreModel;

/// The key/value pairs one section holds.
pub uninterp spec fn props_entries(props: ini::Properties) -> Map<Seq<char>, Seq<char>>;

/// The section-name argument of a store call, as a model key.
pub open spec fn section_key_of(name: Option<&str>) -> Option<Seq<char>> {
    match name {
        Some(s) => Some(s@),
        None => None,
    }
}

/// The model key an operation's section text addresses: empty text is
/// the sentinel for the default, unnamed section.
pub open spec fn sec_key(section: Seq<char>) -> Option<Seq<char>> {
    if section.len() == 0 {
        None
    } else {
        Some(section)
    }
}

/// The pairs of section `k` in `m`, or no pairs when the section is
/// absent.
pub open spec fn props_or_empty(m: StoreModel, k: Option<Seq<char>>) -> Map<Seq<char>, Seq<char>> {
    if m.contains_key(k) {
        m[k]
    } else {
        Map::empty()
    }
}

/// The store model after one operation.
///
/// A `Put` with an empty key is skipped; otherwise it upserts the pair,
/// creating the section.  A `Remove` with an empty key deletes the
/// whole section; with a key it removes the key from a present section
/// and deletes the section when that leaves it empty.
pub open spec fn apply_one(m: StoreModel, c: CommandModel) -> StoreModel {
    let k = sec_key(c.section);
    match c.action {
        Action::Put => {
            if c.key.len() == 0 {
                m
            } else {
                m.insert(k, props_or_empty(m, k).insert(c.key, c.value))
            }
        },
        Action::Remove => {
            if c.key.len() == 0 {
                m.remove(k)
            } else if !m.contains_key(k) {
                m
            } else {
                let p = m[k].remove(c.key);
                if p == Map::<Seq<char>, Seq<char>>::empty() {
                    m.remove(k)
                } else {
                    m.insert(k, p)
                }
            }
        },
    }
}

/// The store model after a whole sequence of operations, applied in
/// order.
pub open spec fn apply_all(m: StoreModel, cs: Seq<CommandModel>) -> StoreModel
    decreases cs.len(),
{
    if cs.len() == 0 {
        m
    } else {
        apply_all(apply_one(m, cs[0]), cs.drop_first())
    }
}

proof fn lemma_apply_all_snoc(m: StoreModel, cs: Seq<CommandModel>, c: CommandModel)
    ensures
        apply_all(m, cs.push(c)) == apply_one(apply_all(m, cs), c),
    decreases cs.len(),
{
    if cs.len() == 0 {
        assert(cs.push(c)[0] == c);
        assert(cs.push(c).drop_first() =~= Seq::<CommandModel>::empty());
        assert(apply_all(apply_one(m, c), Seq::<CommandModel>::empty()) == apply_one(m, c));
        assert(apply_all(m, cs.push(c)) == apply_one(m, c));
    } else {
        assert(cs.push(c)[0] == cs[0]);
        assert(cs.push(c).drop_first() =~= cs.drop_first().push(c));
        lemma_apply_all_snoc(apply_one(m, cs[0]), cs.drop_first(), c);
        assert(apply_all(m, cs.push(c)) == apply_all(
            apply_one(m, cs[0]),
            cs.drop_first().push(c),
        ));
    }
}

/// Relies on `ini::Ini::set_to`: upserts `key = value` into the named
/// section, creating the section when it is absent.
#[verifier::external_body]
fn ini_set_to(store: &mut ini::Ini, name: Option<&str>, key: &str, value: &str)
    ensures
        ini_sections(*final(store)) == ini_sections(*old(store)).insert(
            section_key_of(name),
            props_or_empty(ini_sections(*old(store)), section_key_of(name)).insert(key@, value@),
        ),
{
    store.set_to(name, key.to_owned(), value.to_owned());
}

/// Relies on `ini::Ini::delete`: removes the named section wholly, a
/// no-op when it is absent.
#[verifier::external_body]
fn ini_delete(store: &mut ini::Ini, name: Option<&str>)
    ensures
        ini_sections(*final(store)) == ini_sections(*old(store)).remove(section_key_of(name)),
{
    store.delete(name);
}

/// Relies on `ini::Ini::delete_from`: removes a key from the named
/// section when both are present, without pruning the section.
#[verifier::external_body]
fn ini_delete_from(store: &mut ini::Ini, name: Option<&str>, key: &str) -> (r: Option<String>)
    ensures
        ini_sections(*final(store)) == (if ini_sections(*old(store)).contains_key(
            section_key_of(name),
        ) {
            ini_sections(*old(store)).insert(
                section_key_of(name),
                ini_sections(*old(store))[section_key_of(name)].remove(key@),
            )
        } else {
            ini_sections(*old(store))
        }),
        r is Some <==> (ini_sections(*old(store)).contains_key(section_key_of(name))
            && ini_sections(*old(store))[section_key_of(name)].contains_key(key@)),
        r is Some ==> r->Some_0@ == ini_sections(*old(store))[section_key_of(name)][key@],
{
    store.delete_from(name, key)
}

/// Relies on `ini::Ini::section`: looks the named section up.
#[verifier::external_body]
fn ini_section<'a>(store: &'a ini::Ini, name: Option<&str>) -> (r: Option<&'a ini::Properties>)
    ensures
        r is Some <==> ini_sections(*store).contains_key(section_key_of(name)),
        r is Some ==> props_entries(*r->Some_0) == ini_sections(*store)[section_key_of(name)],
{
    store.section(name)
}

/// Relies on `ini::Properties::is_empty`: whether the section holds no
/// key at all.
#[verifier::external_body]
fn props_is_empty(props: &ini::Properties) -> (r: bool)
    ensures
        r == (props_entries(*props) == Map::<Seq<char>, Seq<char>>::empty()),
{
    props.is_empty()
}

/// Apply a sequence of operations to the store, in order.
///
/// Each operation observes the effects of the ones before it; no
/// operation ever fails, and malformed ones were already dropped while
/// decoding.
pub fn process_commands(commands: Vec<Command>, store: &mut ini::Ini)
    ensures
        ini_sections(*final(store)) == apply_all(ini_sections(*old(store)), commands.deep_view()),
{
    let ghost m0 = ini_sections(*store);
    let ghost cs = commands.deep_view();
    proof {
        assert(cs.take(0) =~= Seq::<CommandModel>::empty());
    }
    let n = commands.len();
    let mut i: usize = 0;
    while i < n
        invariant
            0 <= i <= n,
            n == commands@.len(),
            m0 == ini_sections(*old(store)),
            cs == commands.deep_view(),
            ini_sections(*store) == apply_all(m0, cs.take(i as int)),
        decreases n - i,
    {
        let ghost m_pre = ini_sections(*store);
        let ghost c_model = cs[i as int];
        proof {
            assert(c_model == commands@[i as int]@);
            lemma_apply_all_snoc(m0, cs.take(i as int), c_model);
            assert(cs.take(i as int).push(c_model) =~= cs.take(i as int + 1));
        }
        let c = &commands[i];
        let name: Option<&str> = if c.section.as_str().is_empty() {
            None
        } else {
            Some(c.section.as_str())
        };
        let ghost k = sec_key(c_model.section);
        proof {
            assert(section_key_of(name) == k);
        }
        match c.action {
            Action::Put => {
                if !c.key.as_str().is_empty() {
                    ini_set_to(store, name, c.key.as_str(), c.value.as_str());
                }
            },
            Action::Remove => {
                if c.key.as_str().is_empty() {
                    ini_delete(store, name);
                } else {
                    ini_delete_from(store, name, c.key.as_str());
                    let pruned = match ini_section(store, name) {
                        Some(props) => props_is_empty(props),
                        None => false,
                    };
                    if pruned {
                        ini_delete(store, name);
                    }
                    proof {
                        if m_pre.contains_key(k) {
                            let p = m_pre[k].remove(c_model.key);
                            if p == Map::<Seq<char>, Seq<char>>::empty() {
                                assert(m_pre.insert(k, p).remove(k) =~= m_pre.remove(k));
                            }
                        }
                    }
                }
            },
        }
        proof {
            assert(ini_sections(*store) == apply_one(m_pre, c_model));
        }
        i = i + 1;
    }
    proof {
        assert(cs.take(n as int) =~= cs);
    }
}

/// Applying one operation twice leaves the store exactly as applying
/// it once does; in particular a repeated `Put` of the same pair is
/// idempotent.
pub proof fn lemma_apply_idempotent(m: StoreModel, c: CommandModel)
    ensures
        apply_one(apply_one(m, c), c) == apply_one(m, c),
{
    let k = sec_key(c.section);
    match c.action {
        Action::Put => {
            if c.key.len() > 0 {
                let p = props_or_empty(m, k).insert(c.key, c.value);
                let m1 = m.insert(k, p);
                assert(props_or_empty(m1, k) == p);
                assert(p.insert(c.key, c.value) =~= p);
                assert(m1.insert(k, p) =~= m1);
            }
        },
        Action::Remove => {
            if c.key.len() == 0 {
                assert(m.remove(k).remove(k) =~= m.remove(k));
            } else if m.contains_key(k) {
                let p = m[k].remove(c.key);
                if p == Map::<Seq<char>, Seq<char>>::empty() {
                    assert(!m.remove(k).contains_key(k));
                } else {
                    let m1 = m.insert(k, p);
                    assert(m1[k].remove(c.key) =~= p);
                    assert(m1.insert(k, p) =~= m1);
                }
            }
        },
    }
}

/// The net effect of a `Put` of `(section, key, value)` followed at
/// once by a `Remove` of the same key: the section is absent when it
/// held no other key, and otherwise stays, minus the removed key.
pub proof fn lemma_put_then_remove(
    m: StoreModel,
    section: Seq<char>,
    key: Seq<char>,
    value: Seq<char>,
)
    requires
        key.len() > 0,
    ensures
        ({
            let k = sec_key(section);
            let put = CommandModel { action: Action::Put, section, key, value };
            let rem = CommandModel {
                action: Action::Remove,
                section,
                key,
                value: Seq::empty(),
            };
            let rest = props_or_empty(m, k).remove(key);
            let r = apply_one(apply_one(m, put), rem);
            &&& rest == Map::<Seq<char>, Seq<char>>::empty() ==> r == m.remove(k)
                && !r.contains_key(k)
            &&& rest != Map::<Seq<char>, Seq<char>>::empty() ==> r == m.insert(k, rest)
                && r.contains_key(k) && r[k] == rest
        }),
{
    let k = sec_key(section);
    let p0 = props_or_empty(m, k);
    let put = CommandModel { action: Action::Put, section, key, value };
    let m1 = m.insert(k, p0.insert(key, value));
    assert(apply_one(m, put) == m1);
    let p = m1[k].remove(key);
    assert(p =~= p0.remove(key));
    if p == Map::<Seq<char>, Seq<char>>::empty() {
        assert(m1.remove(k) =~= m.remove(k));
    } else {
        assert(m1.insert(k, p) =~= m.insert(k, p));
    }
}

/// Auto-pruning: removing the last key of a present section deletes
/// the section; removing a non-last key keeps the section, with only
/// that key gone.
pub proof fn lemma_remove_prunes(m: StoreModel, section: Seq<char>, key: Seq<char>)
    requires
        key.len() > 0,
        m.contains_key(sec_key(section)),
    ensures
        ({
            let k = sec_key(section);
            let rem = CommandModel {
                action: Action::Remove,
                section,
                key,
                value: Seq::empty(),
            };
            let rest = m[k].remove(key);
            let r = apply_one(m, rem);
            &&& rest == Map::<Seq<char>, Seq<char>>::empty() ==> r == m.remove(k)
                && !r.contains_key(k)
            &&& rest != Map::<Seq<char>, Seq<char>>::empty() ==> r.contains_key(k) && r[k] == rest
                && r == m.insert(k, rest)
        }),
{
}

} // verus!
