use vstd::prelude::*;


verus! {

/// A value of the configuration file, as the settings read it.
#[derive(Debug)]
pub enum Setting {
    Text(String),
    Integer(i64),
    Boolean(bool),
    List(Vec<Setting>),
    Table(Vec<(String, Setting)>),
    Other,
}

/// What a setting holds, as values.
pub enum SettingView {
    Text(Seq<char>),
    Integer(i64),
    Boolean(bool),
    List(Seq<SettingView>),
    Table(Seq<(Seq<char>, SettingView)>),
    Other,
}


/// What a setting holds, as values.
pub open spec fn viewed(s: Setting) -> SettingView
    decreases s,
{
    match s {
        Setting::Text(t) => SettingView::Text(t@),
        Setting::Integer(i) => SettingView::Integer(i),
        Setting::Boolean(b) => SettingView::Boolean(b),
        Setting::List(v) => SettingView::List(viewed_list(v@)),
        Setting::Table(e) => SettingView::Table(viewed_entries(e@)),
        Setting::Other => SettingView::Other,
    }
}

pub open spec fn viewed_list(items: Seq<Setting>) -> Seq<SettingView>
    decreases items,
{
    if items.len() == 0 {
        Seq::empty()
    } else {
        viewed_list(items.drop_last()).push(viewed(items.last()))
    }
}

pub open spec fn viewed_entries(entries: Seq<(String, Setting)>) -> Seq<(Seq<char>, SettingView)>
    decreases entries,
{
    if entries.len() == 0 {
        Seq::empty()
    } else {
        viewed_entries(entries.drop_last()).push((entries.last().0@, viewed(entries.last().1)))
    }
}


/// The view of a list of settings is the view of each, in order.
pub proof fn lemma_viewed_list(items: Seq<Setting>)
    ensures
        viewed_list(items).len() == items.len(),
        forall|i: int| 0 <= i < items.len() ==> #[trigger] viewed_list(items)[i] == viewed(items[i]),
    decreases items.len(),
{
    if items.len() > 0 {
        lemma_viewed_list(items.drop_last());
        assert forall|i: int| 0 <= i < items.len() implies #[trigger] viewed_list(items)[i] == viewed(items[i]) by {
            if i < items.len() - 1 {
                assert(items.drop_last()[i] == items[i]);
            }
        }
    }
}

/// The view of a table's entries is each key with the view of its value, in order.
pub proof fn lemma_viewed_entries(entries: Seq<(String, Setting)>)
    ensures
        viewed_entries(entries).len() == entries.len(),
        forall|i: int| 0 <= i < entries.len() ==> #[trigger] viewed_entries(entries)[i] == (entries[i].0@, viewed(entries[i].1)),
    decreases entries.len(),
{
    if entries.len() > 0 {
        lemma_viewed_entries(entries.drop_last());
        assert forall|i: int| 0 <= i < entries.len() implies #[trigger] viewed_entries(entries)[i] == (entries[i].0@, viewed(entries[i].1)) by {
            if i < entries.len() - 1 {
                assert(entries.drop_last()[i] == entries[i]);
            }
        }
    }
}

#[verifier::external_type_specification]
#[verifier::external_body]
pub struct ExTomlValue(toml::Value);

/// What the `toml` crate reads from a text: the entries of the document's top-level
/// table, in the order the table keeps them, or the text of the error it reports.
pub uninterp spec fn toml_entries(source: Seq<char>) -> Result<Seq<(Seq<char>, SettingView)>, Seq<char>>;

/// `str::parse::<toml::Table>`: the document's entries, each value taken as a setting,
/// or the error's text.
#[verifier::external_body]
pub fn parse_toml(source: &str) -> (r: Result<Vec<(String, Setting)>, String>)
    ensures
        match r {
            Ok(entries) => toml_entries(source@) == Ok::<Seq<(Seq<char>, SettingView)>, Seq<char>>(viewed_entries(entries@)),
            Err(message) => toml_entries(source@) == Err::<Seq<(Seq<char>, SettingView)>, Seq<char>>(message@),
        },
{
    match source.parse::<toml::Table>() {
        Ok(table) => Ok(table.iter().map(|(key, value)| (key.clone(), setting_of(value))).collect()),
        Err(error) => Err(error.to_string()),
    }
}

/// A `toml` value as a setting: strings, integers, booleans, arrays and tables as they
/// are, floats and dates as `Other`.
#[verifier::external_body]
fn setting_of(value: &toml::Value) -> Setting {
    match value {
        toml::Value::String(text) => Setting::Text(text.clone()),
        toml::Value::Integer(number) => Setting::Integer(*number),
        toml::Value::Boolean(flag) => Setting::Boolean(*flag),
        toml::Value::Array(items) => Setting::List(items.iter().map(setting_of).collect()),
        toml::Value::Table(table) => Setting::Table(table.iter().map(|(key, item)| (key.clone(), setting_of(item))).collect()),
        toml::Value::Float(_) | toml::Value::Datetime(_) => Setting::Other,
    }
}

impl Setting {
    /// The text, when the setting is a string.
    pub fn as_str(&self) -> (r: Option<&str>)
        ensures
            match viewed(*self) {
                SettingView::Text(t) => r matches Some(s) && s@ == t,
                _ => r is None,
            },
    {
        match self {
            Setting::Text(text) => Some(text.as_str()),
            _ => None,
        }
    }

    /// The entries, when the setting is a table.
    pub fn as_table(&self) -> (r: Option<&Vec<(String, Setting)>>)
        ensures
            match viewed(*self) {
                SettingView::Table(e) => r matches Some(entries) && viewed_entries(entries@) == e,
                _ => r is None,
            },
    {
        match self {
            Setting::Table(entries) => Some(entries),
            _ => None,
        }
    }
}

/// The value of the first entry named `key`.
pub open spec fn entry(entries: Seq<(Seq<char>, SettingView)>, key: Seq<char>) -> Option<SettingView>
    decreases entries.len(),
{
    if entries.len() == 0 {
        None
    } else if entries[0].0 == key {
        Some(entries[0].1)
    } else {
        entry(entries.drop_first(), key)
    }
}

/// The value of the entry named `key`.
pub fn lookup<'a>(entries: &'a Vec<(String, Setting)>, key: &str) -> (r: Option<&'a Setting>)
    ensures
        match entry(viewed_entries(entries@), key@) {
            Some(v) => r matches Some(s) && viewed(*s) == v,
            None => r is None,
        },
{
    let ghost all = viewed_entries(entries@);
    proof {
        lemma_viewed_entries(entries@);
    }
    let mut i: usize = 0;
    assert(all.skip(0) =~= all);
    while i < entries.len()
        invariant
            0 <= i <= entries@.len(),
            all == viewed_entries(entries@),
            all.len() == entries@.len(),
            forall|j: int| 0 <= j < entries@.len() ==> #[trigger] all[j] == (entries@[j].0@, viewed(entries@[j].1)),
            entry(all.skip(i as int), key@) == entry(all, key@),
        decreases entries.len() - i,
    {
        proof {
            assert(all.skip(i as int)[0] == all[i as int]);
            assert(all.skip(i as int).drop_first() =~= all.skip(i + 1));
        }
        if crate::text::str_eq(entries[i].0.as_str(), key) {
            return Some(&entries[i].1);
        }
        i += 1;
    }
    None
}

} // verus!
