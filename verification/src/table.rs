//! The string table and its resolution rule.
//!
//! A table maps an identifier to the templates of that identifier, one per
//! language. Resolution looks for the requested language first and for one
//! fallback language second, and nowhere else.

use crate::language::{language_tag_canonical, LanguageTag, DEFAULT_LANGUAGE};
use crate::text::optional_text;
use vstd::hash_map::StringHashMap;
use vstd::prelude::*;
use vstd::string::*;

verus! {

/// A table as a map from identifier to a map from language text to template.
pub type TableModel = Map<Seq<char>, Map<Seq<char>, Seq<char>>>;

/// The template that a table gives for `id` in `language`: the one of
/// `language` where the identifier has it, else the one of `fallback` where
/// there is a fallback and the identifier has that, else none.
pub open spec fn resolve(
    table: TableModel,
    id: Seq<char>,
    language: Seq<char>,
    fallback: Option<Seq<char>>,
) -> Option<Seq<char>> {
    if !table.contains_key(id) {
        None
    } else if table[id].contains_key(language) {
        Some(table[id][language])
    } else {
        match fallback {
            Some(f) => if table[id].contains_key(f) {
                Some(table[id][f])
            } else {
                None
            },
            None => None,
        }
    }
}

/// The templates of one identifier, built from pairs of language and
/// template: a later pair replaces an earlier one of the same language.
pub open spec fn templates_of(pairs: Seq<(LanguageTag, String)>) -> Map<Seq<char>, Seq<char>>
    decreases pairs.len(),
{
    if pairs.len() == 0 {
        Map::empty()
    } else {
        templates_of(pairs.drop_last()).insert(pairs.last().0@, pairs.last().1@)
    }
}

/// The table built from entries of identifier and templates: a later entry
/// replaces an earlier one of the same identifier.
pub open spec fn table_of(entries: Seq<(String, Vec<(LanguageTag, String)>)>) -> TableModel
    decreases entries.len(),
{
    if entries.len() == 0 {
        Map::empty()
    } else {
        table_of(entries.drop_last()).insert(entries.last().0@, templates_of(entries.last().1@))
    }
}

/// The templates that a stored inner map holds.
pub closed spec fn stored_templates(inner: StringHashMap<String>) -> Map<Seq<char>, Seq<char>> {
    Map::new(|l: Seq<char>| inner@.contains_key(l), |l: Seq<char>| inner@[l]@)
}

/// The data of the string table: identifier, then language, then template.
pub struct StringTable {
    map: StringHashMap<StringHashMap<String>>,
}

impl View for StringTable {
    type V = TableModel;

    closed spec fn view(&self) -> TableModel {
        Map::new(
            |id: Seq<char>| self.map@.contains_key(id),
            |id: Seq<char>| stored_templates(self.map@[id]),
        )
    }
}

/// Builds the inner map of one identifier.
fn build_templates(pairs: &Vec<(LanguageTag, String)>) -> (res: StringHashMap<String>)
    ensures
        stored_templates(res) == templates_of(pairs@),
{
    let mut inner: StringHashMap<String> = StringHashMap::new();
    let mut i: usize = 0;
    assert(pairs@.take(0) =~= Seq::empty());
    assert(stored_templates(inner) =~= Map::empty());
    while i < pairs.len()
        invariant
            0 <= i <= pairs.len(),
            stored_templates(inner) == templates_of(pairs@.take(i as int)),
        decreases pairs.len() - i,
    {
        let ghost before = inner;
        let key = String::from_str(pairs[i].0.as_str());
        let value = pairs[i].1.clone();
        inner.insert(key, value);
        proof {
            assert(pairs@.take(i + 1).drop_last() =~= pairs@.take(i as int));
            assert(pairs@.take(i + 1).last() == pairs@[i as int]);
            assert(stored_templates(inner) =~= stored_templates(before).insert(
                pairs@[i as int].0@,
                pairs@[i as int].1@,
            ));
        }
        i = i + 1;
    }
    assert(pairs@.take(i as int) =~= pairs@);
    inner
}

impl StringTable {
    /// Creates a table from its entries.
    pub fn new(entries: &Vec<(String, Vec<(LanguageTag, String)>)>) -> (res: StringTable)
        ensures
            res@ == table_of(entries@),
    {
        let mut table = StringTable { map: StringHashMap::new() };
        let mut i: usize = 0;
        assert(entries@.take(0) =~= Seq::empty());
        assert(table@ =~= Map::empty());
        while i < entries.len()
            invariant
                0 <= i <= entries.len(),
                table@ == table_of(entries@.take(i as int)),
            decreases entries.len() - i,
        {
            let ghost before = table@;
            let key = entries[i].0.clone();
            let inner = build_templates(&entries[i].1);
            table.map.insert(key, inner);
            proof {
                assert(entries@.take(i + 1).drop_last() =~= entries@.take(i as int));
                assert(entries@.take(i + 1).last() == entries@[i as int]);
                assert(table@ =~= before.insert(
                    entries@[i as int].0@,
                    templates_of(entries@[i as int].1@),
                ));
            }
            i = i + 1;
        }
        assert(entries@.take(i as int) =~= entries@);
        table
    }

    /// Returns the template of `id` in `language`, or else in `fallback`.
    pub fn get_with_fallback(
        &self,
        id: &str,
        language: &LanguageTag,
        fallback: Option<&LanguageTag>,
    ) -> (res: Option<String>)
        ensures
            optional_text(res) == resolve(
                self@,
                id@,
                language@,
                match fallback {
                    Some(f) => Some(f@),
                    None => None,
                },
            ),
    {
        match self.map.get(id) {
            Some(entry) => match entry.get(language.as_str()) {
                Some(value) => Some(value.clone()),
                None => match fallback {
                    Some(f) => match entry.get(f.as_str()) {
                        Some(value) => Some(value.clone()),
                        None => None,
                    },
                    None => None,
                },
            },
            None => None,
        }
    }

    /// Returns the template of `id` in `language`, or else in the default
    /// language.
    pub fn get(&self, id: &str, language: &LanguageTag) -> (res: Option<String>)
        ensures
            optional_text(res) == resolve(
                self@,
                id@,
                language@,
                language_tag_canonical(DEFAULT_LANGUAGE@),
            ),
    {
        let fallback = LanguageTag::fallback();
        match &fallback {
            Some(f) => self.get_with_fallback(id, language, Some(f)),
            None => self.get_with_fallback(id, language, None),
        }
    }
}

/// An identifier that has a template in the requested language resolves to
/// that template, whatever the fallback.
pub proof fn lemma_resolve_requested(
    table: TableModel,
    id: Seq<char>,
    language: Seq<char>,
    fallback: Option<Seq<char>>,
)
    requires
        table.contains_key(id),
        table[id].contains_key(language),
    ensures
        resolve(table, id, language, fallback) == Some(table[id][language]),
{
}

/// An identifier that lacks the requested language and has a template in
/// the fallback language resolves to the fallback's template.
pub proof fn lemma_resolve_fallback(
    table: TableModel,
    id: Seq<char>,
    language: Seq<char>,
    fallback: Seq<char>,
)
    requires
        table.contains_key(id),
        !table[id].contains_key(language),
        table[id].contains_key(fallback),
    ensures
        resolve(table, id, language, Some(fallback)) == Some(table[id][fallback]),
{
}

/// An identifier that the table does not hold resolves to nothing, in every
/// language.
pub proof fn lemma_resolve_absent(
    table: TableModel,
    id: Seq<char>,
    language: Seq<char>,
    fallback: Option<Seq<char>>,
)
    requires
        !table.contains_key(id),
    ensures
        resolve(table, id, language, fallback) is None,
{
}

/// An identifier without any template resolves to nothing, in every
/// language.
pub proof fn lemma_resolve_empty(
    table: TableModel,
    id: Seq<char>,
    language: Seq<char>,
    fallback: Option<Seq<char>>,
)
    requires
        table.contains_key(id),
        table[id] == Map::<Seq<char>, Seq<char>>::empty(),
    ensures
        resolve(table, id, language, fallback) is None,
{
}

/// Neither language being held, the identifier resolves to nothing: the
/// fallback is the only second try.
pub proof fn lemma_resolve_no_further_fallback(
    table: TableModel,
    id: Seq<char>,
    language: Seq<char>,
    fallback: Option<Seq<char>>,
)
    requires
        table.contains_key(id),
        !table[id].contains_key(language),
        fallback matches Some(f) ==> !table[id].contains_key(f),
    ensures
        resolve(table, id, language, fallback) is None,
{
}

/// The table holds an identifier of the entries with the templates of the
/// last entry of that identifier.
pub proof fn lemma_table_of_entry(entries: Seq<(String, Vec<(LanguageTag, String)>)>, i: int)
    requires
        0 <= i < entries.len(),
        forall|j: int| i < j < entries.len() ==> (#[trigger] entries[j]).0@ != entries[i].0@,
    ensures
        table_of(entries).contains_key(entries[i].0@),
        table_of(entries)[entries[i].0@] == templates_of(entries[i].1@),
    decreases entries.len(),
{
    if i < entries.len() - 1 {
        let front = entries.drop_last();
        assert(front[i] == entries[i]);
        assert forall|j: int| i < j < front.len() implies (#[trigger] front[j]).0@
            != front[i].0@ by {
            assert(front[j] == entries[j]);
        }
        lemma_table_of_entry(front, i);
        assert(entries.last() == entries[entries.len() - 1]);
    }
}

/// The table holds no identifier that no entry has.
pub proof fn lemma_table_of_absent(
    entries: Seq<(String, Vec<(LanguageTag, String)>)>,
    id: Seq<char>,
)
    requires
        forall|j: int| 0 <= j < entries.len() ==> (#[trigger] entries[j]).0@ != id,
    ensures
        !table_of(entries).contains_key(id),
    decreases entries.len(),
{
    if entries.len() > 0 {
        let front = entries.drop_last();
        assert forall|j: int| 0 <= j < front.len() implies (#[trigger] front[j]).0@ != id by {
            assert(front[j] == entries[j]);
        }
        lemma_table_of_absent(front, id);
        assert(entries.last() == entries[entries.len() - 1]);
    }
}

/// An identifier has, in a language of its pairs, the template of the last
/// pair of that language.
pub proof fn lemma_templates_of_pair(pairs: Seq<(LanguageTag, String)>, i: int)
    requires
        0 <= i < pairs.len(),
        forall|j: int| i < j < pairs.len() ==> (#[trigger] pairs[j]).0@ != pairs[i].0@,
    ensures
        templates_of(pairs).contains_key(pairs[i].0@),
        templates_of(pairs)[pairs[i].0@] == pairs[i].1@,
    decreases pairs.len(),
{
    if i < pairs.len() - 1 {
        let front = pairs.drop_last();
        assert(front[i] == pairs[i]);
        assert forall|j: int| i < j < front.len() implies (#[trigger] front[j]).0@
            != front[i].0@ by {
            assert(front[j] == pairs[j]);
        }
        lemma_templates_of_pair(front, i);
        assert(pairs.last() == pairs[pairs.len() - 1]);
    }
}

/// An identifier has no template in a language that none of its pairs has.
pub proof fn lemma_templates_of_absent(pairs: Seq<(LanguageTag, String)>, language: Seq<char>)
    requires
        forall|j: int| 0 <= j < pairs.len() ==> (#[trigger] pairs[j]).0@ != language,
    ensures
        !templates_of(pairs).contains_key(language),
    decreases pairs.len(),
{
    if pairs.len() > 0 {
        let front = pairs.drop_last();
        assert forall|j: int| 0 <= j < front.len() implies (#[trigger] front[j]).0@
            != language by {
            assert(front[j] == pairs[j]);
        }
        lemma_templates_of_absent(front, language);
        assert(pairs.last() == pairs[pairs.len() - 1]);
    }
}

} // verus!
