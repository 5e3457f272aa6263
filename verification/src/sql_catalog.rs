//! The catalog of Iceberg tables in a database: its settings, its namespaces, and what
//! each operation asks before it acts.
use crate::key::{str_same, Key};
use crate::names::shown_names;
use crate::ordered::OrderedMap;
use crate::text::{
    begins_with, chars_of, concat, concat3, join, joined, nat_text, starts_with, texts, usize_text,
};
use crate::vecs::filtered;
use crate::words::{
    bool_complaint, debug_of, is_white, parse_bool, parse_u32, parse_u64, u32_complaint,
    u64_complaint, unsigned_value, white,
};
use vstd::prelude::*;
use vstd::string::{StrSliceExecFns, StringExecFns};

verus! {

/// The property that holds the address of the database.
pub const SQL_CATALOG_PROP_URI: &'static str = "uri";

/// The property that holds where tables are kept.
pub const SQL_CATALOG_PROP_WAREHOUSE: &'static str = "warehouse";

/// The property that once chose how arguments are marked. It is ignored.
pub const SQL_CATALOG_PROP_BIND_STYLE: &'static str = "sql_bind_style";

/// Why an operation of the catalog fails.
#[derive(Debug)]
pub enum CatalogFault {
    /// What was asked for makes no sense.
    DataInvalid(String),
    /// Something is not as it should be.
    Unexpected(String),
    NoSuchNamespace,
    NoSuchTable,
    TableAlreadyExists,
}

/// The settings of a catalog.
pub struct SqlCatalogConfig {
    pub uri: String,
    pub name: String,
    pub warehouse_location: String,
    pub props: OrderedMap<String, String>,
}

/// Collects the settings of a catalog.
pub struct SqlCatalogBuilder {
    pub config: SqlCatalogConfig,
}

/// The properties with these set, one after the other.
pub open spec fn with_props(m: Map<Seq<char>, String>, pairs: Seq<(String, String)>) -> Map<
    Seq<char>,
    String,
>
    decreases pairs.len(),
{
    if pairs.len() == 0 {
        m
    } else {
        with_props(m, pairs.drop_last()).insert(pairs.last().0@, pairs.last().1)
    }
}

fn set_props(m: &mut OrderedMap<String, String>, pairs: Vec<(String, String)>)
    requires
        old(m).wf(),
    ensures
        final(m).wf(),
        final(m)@ == with_props(old(m)@, pairs@),
{
    let ghost start = m@;
    let ghost all = pairs@;
    let mut rest: Vec<(String, String)> = pairs;
    let ghost mut n: int = 0;
    assert(all.skip(0) =~= all);
    assert(all.take(0) =~= Seq::empty());
    while rest.len() > 0
        invariant
            m.wf(),
            0 <= n <= all.len(),
            rest@ == all.skip(n),
            m@ == with_props(start, all.take(n)),
        decreases rest@.len(),
    {
        let pair: (String, String) = rest.remove(0);
        m.insert(pair.0, pair.1);
        proof {
            assert(rest@ =~= all.skip(n + 1));
            assert(all.take(n + 1).drop_last() =~= all.take(n));
            assert(all.take(n + 1).last() == pair);
            n = n + 1;
        }
    }
    assert(all.take(n) =~= all);
}

/// A text of white space alone.
pub open spec fn blank(t: Seq<char>) -> bool {
    forall|i: int| 0 <= i < t.len() ==> is_white(#[trigger] t[i])
}

fn is_blank(t: &str) -> (r: bool)
    ensures
        r == blank(t@),
{
    let chars: Vec<char> = chars_of(t);
    let mut i: usize = 0;
    while i < chars.len()
        invariant
            i <= chars@.len(),
            chars@ == t@,
            forall|j: int| 0 <= j < i ==> is_white(#[trigger] t@[j]),
        decreases chars@.len() - i,
    {
        if !white(chars[i]) {
            assert(!is_white(t@[i as int]));
            return false;
        }
        i = i + 1;
    }
    true
}

/// A property, or else what is set otherwise.
pub open spec fn prop_or(m: Map<Seq<char>, String>, key: Seq<char>, other: String) -> String {
    if m.dom().contains(key) {
        m[key]
    } else {
        other
    }
}

impl Default for SqlCatalogBuilder {
    /// Nothing is set.
    fn default() -> (r: Self)
        ensures
            r.config.props.wf(),
            r.config.uri@.len() == 0,
            r.config.name@.len() == 0,
            r.config.warehouse_location@.len() == 0,
            r.config.props@ == Map::<Seq<char>, String>::empty(),
    {
        SqlCatalogBuilder {
            config: SqlCatalogConfig {
                uri: String::new(),
                name: String::new(),
                warehouse_location: String::new(),
                props: OrderedMap::new(),
            },
        }
    }
}

impl SqlCatalogBuilder {
    /// Sets the address of the database. A property given to `load` comes before it.
    pub fn uri(self, uri: String) -> (r: Self)
        ensures
            r.config == (SqlCatalogConfig { uri, ..self.config }),
    {
        let mut config: SqlCatalogConfig = self.config;
        config.uri = uri;
        SqlCatalogBuilder { config }
    }

    /// Sets where tables are kept. A property given to `load` comes before it.
    pub fn warehouse_location(self, location: String) -> (r: Self)
        ensures
            r.config == (SqlCatalogConfig { warehouse_location: location, ..self.config }),
    {
        let mut config: SqlCatalogConfig = self.config;
        config.warehouse_location = location;
        SqlCatalogBuilder { config }
    }

    /// Sets properties. Of several values of one, the last counts.
    pub fn props(self, props: Vec<(String, String)>) -> (r: Self)
        requires
            self.config.props.wf(),
        ensures
            r.config.props.wf(),
            r.config.props@ == with_props(self.config.props@, props@),
            r.config.uri == self.config.uri,
            r.config.name == self.config.name,
            r.config.warehouse_location == self.config.warehouse_location,
    {
        let mut config: SqlCatalogConfig = self.config;
        set_props(&mut config.props, props);
        SqlCatalogBuilder { config }
    }

    /// Sets a property. Of several values of one, the last counts.
    pub fn prop(self, key: String, value: String) -> (r: Self)
        requires
            self.config.props.wf(),
        ensures
            r.config.props.wf(),
            r.config.props@ == self.config.props@.insert(key@, value),
            r.config.uri == self.config.uri,
            r.config.name == self.config.name,
            r.config.warehouse_location == self.config.warehouse_location,
    {
        let mut config: SqlCatalogConfig = self.config;
        config.props.insert(key, value);
        SqlCatalogBuilder { config }
    }

    /// The settings of the catalog of this name. The properties given here come before
    /// those set earlier; the address and the warehouse are taken out of them. A name
    /// of white space alone is refused.
    pub fn load(self, name: String, props: Vec<(String, String)>) -> (r: Result<
        SqlCatalogConfig,
        CatalogFault,
    >)
        requires
            self.config.props.wf(),
        ensures
            match r {
                Ok(config) => {
                    let all = with_props(self.config.props@, props@);
                    &&& !blank(name@)
                    &&& config.name == name
                    &&& config.uri == prop_or(all, SQL_CATALOG_PROP_URI@, self.config.uri)
                    &&& config.warehouse_location == prop_or(
                        all,
                        SQL_CATALOG_PROP_WAREHOUSE@,
                        self.config.warehouse_location,
                    )
                    &&& config.props.wf()
                    &&& config.props@ == all.remove(SQL_CATALOG_PROP_URI@).remove(
                        SQL_CATALOG_PROP_WAREHOUSE@,
                    ).remove(SQL_CATALOG_PROP_BIND_STYLE@)
                },
                Err(e) => blank(name@) && (e matches CatalogFault::DataInvalid(m) && m@
                    == "Catalog name cannot be empty"@),
            },
    {
        let mut config: SqlCatalogConfig = self.config;
        set_props(&mut config.props, props);
        let ghost all = config.props@;
        let uri_key: String = SQL_CATALOG_PROP_URI.to_owned();
        let warehouse_key: String = SQL_CATALOG_PROP_WAREHOUSE.to_owned();
        let bind_key: String = SQL_CATALOG_PROP_BIND_STYLE.to_owned();
        proof {
            reveal_strlit("uri");
            reveal_strlit("warehouse");
            assert("uri"@.len() != "warehouse"@.len());
        }
        match config.props.remove(&uri_key) {
            Some(uri) => {
                config.uri = uri;
            },
            None => {},
        }
        match config.props.remove(&warehouse_key) {
            Some(location) => {
                config.warehouse_location = location;
            },
            None => {},
        }
        let _ = config.props.remove(&bind_key);
        if is_blank(name.as_str()) {
            Err(CatalogFault::DataInvalid("Catalog name cannot be empty".to_owned()))
        } else {
            config.name = name;
            Ok(config)
        }
    }
}

/// The settings of the pool of connections.
#[derive(Clone, Copy, Debug, PartialEq, Eq, Structural)]
pub struct PoolSettings {
    pub max_connections: u32,
    pub idle_timeout_seconds: u64,
    pub test_before_acquire: bool,
}

/// How many connections there are where nothing is said.
pub const MAX_CONNECTIONS: u32 = 10;

/// After how many idle seconds a connection is closed where nothing is said.
pub const IDLE_TIMEOUT: u64 = 10;

/// A property read as a number of at most `max`.
pub open spec fn number_prop(m: Map<Seq<char>, String>, key: Seq<char>, max: nat, other: nat) -> Option<
    nat,
> {
    if m.dom().contains(key) {
        match unsigned_value(m[key]@) {
            Some(n) => if n <= max {
                Some(n)
            } else {
                None
            },
            None => None,
        }
    } else {
        Some(other)
    }
}

/// The settings of the pool from the properties of the catalog. One that cannot be
/// read is an error, the first of them in this order.
pub fn pool_settings(props: &OrderedMap<String, String>) -> (r: Result<PoolSettings, CatalogFault>)
    requires
        props.wf(),
    ensures
        ({
            let connections = number_prop(
                props@,
                "pool.max-connections"@,
                u32::MAX as nat,
                MAX_CONNECTIONS as nat,
            );
            let idle = number_prop(
                props@,
                "pool.idle-timeout"@,
                u64::MAX as nat,
                IDLE_TIMEOUT as nat,
            );
            let test = "pool.test-before-acquire"@;
            let tested = !props@.dom().contains(test) || props@[test]@ == "true"@ || props@[test]@
                == "false"@;
            match r {
                Ok(s) => {
                    &&& connections == Some(s.max_connections as nat)
                    &&& idle == Some(s.idle_timeout_seconds as nat)
                    &&& tested
                    &&& s.test_before_acquire == (!props@.dom().contains(test) || props@[test]@
                        == "true"@)
                },
                Err(e) => e matches CatalogFault::Unexpected(m) && if connections is None {
                    m@ == "invalid pool.max-connections: "@ + u32_complaint(
                        props@["pool.max-connections"@]@,
                    )
                } else if idle is None {
                    m@ == "invalid pool.idle-timeout: "@ + u64_complaint(
                        props@["pool.idle-timeout"@]@,
                    )
                } else {
                    !tested && m@ == "invalid pool.test-before-acquire: "@ + bool_complaint(
                        props@[test]@,
                    )
                },
            }
        }),
{
    let connections_key: String = "pool.max-connections".to_owned();
    let idle_key: String = "pool.idle-timeout".to_owned();
    let test_key: String = "pool.test-before-acquire".to_owned();
    let max_connections: u32 = match props.get(&connections_key) {
        None => MAX_CONNECTIONS,
        Some(t) => match parse_u32(t.as_str()) {
            Ok(n) => n,
            Err(m) => {
                return Err(
                    CatalogFault::Unexpected(
                        concat("invalid pool.max-connections: ", m.as_str()),
                    ),
                );
            },
        },
    };
    let idle_timeout_seconds: u64 = match props.get(&idle_key) {
        None => IDLE_TIMEOUT,
        Some(t) => match parse_u64(t.as_str()) {
            Ok(n) => n,
            Err(m) => {
                return Err(
                    CatalogFault::Unexpected(concat("invalid pool.idle-timeout: ", m.as_str())),
                );
            },
        },
    };
    let test_before_acquire: bool = match props.get(&test_key) {
        None => true,
        Some(t) => match parse_bool(t.as_str()) {
            Ok(b) => {
                proof {
                    reveal_strlit("true");
                    reveal_strlit("false");
                    assert("true"@.len() != "false"@.len());
                }
                b
            },
            Err(m) => {
                return Err(
                    CatalogFault::Unexpected(
                        concat("invalid pool.test-before-acquire: ", m.as_str()),
                    ),
                );
            },
        },
    };
    Ok(PoolSettings { max_connections, idle_timeout_seconds, test_before_acquire })
}

/// A command with its question marks numbered from `count` on, as `$1`, `$2` and so
/// on.
pub open spec fn numbered(t: Seq<char>, count: nat) -> Seq<char>
    decreases t.len(),
{
    if t.len() == 0 {
        Seq::empty()
    } else if t[0] == '?' {
        "$"@ + nat_text(count) + numbered(t.skip(1), count + 1)
    } else {
        seq![t[0]] + numbered(t.skip(1), count)
    }
}

/// A command with its question marks numbered.
pub fn replace_placeholders(query: &str) -> (r: String)
    requires
        query@.len() < usize::MAX,
    ensures
        r@ == numbered(query@, 1),
{
    let n: usize = query.unicode_len();
    let mut out: String = String::new();
    let mut count: usize = 1;
    let mut i: usize = 0;
    assert(query@.skip(0) =~= query@);
    while i < n
        invariant
            n == query@.len() < usize::MAX,
            i <= n,
            1 <= count <= i + 1,
            out@ + numbered(query@.skip(i as int), count as nat) == numbered(query@, 1),
        decreases n - i,
    {
        let ghost before = out@;
        let ghost rest = query@.skip(i as int);
        assert(rest.skip(1) =~= query@.skip(i + 1));
        if query.get_char(i) == '?' {
            out.append("$");
            out.append(usize_text(count).as_str());
            assert(before + ("$"@ + nat_text(count as nat) + numbered(
                query@.skip(i + 1),
                count as nat + 1,
            )) =~= out@ + numbered(query@.skip(i + 1), count as nat + 1));
            count = count + 1;
        } else {
            let one: &str = query.substring_char(i, i + 1);
            out.append(one);
            assert(one@ =~= seq![rest[0]]);
            assert(before + (seq![rest[0]] + numbered(query@.skip(i + 1), count as nat)) =~= out@
                + numbered(query@.skip(i + 1), count as nat));
        }
        i = i + 1;
    }
    assert(numbered(query@.skip(i as int), count as nat) =~= Seq::empty());
    assert(out@ =~= numbered(query@, 1));
    out
}

/// The levels of a namespace, as the dots in its text part them.
pub open spec fn levels_of(t: Seq<char>) -> Seq<Seq<char>>
    decreases t.len(),
{
    if t.len() == 0 {
        seq![Seq::empty()]
    } else {
        let before = levels_of(t.drop_last());
        if t.last() == '.' {
            before.push(Seq::empty())
        } else {
            before.drop_last().push(before.last().push(t.last()))
        }
    }
}

proof fn lemma_some_level(t: Seq<char>)
    ensures
        levels_of(t).len() >= 1,
    decreases t.len(),
{
    if t.len() > 0 {
        lemma_some_level(t.drop_last());
    }
}

/// The levels of a namespace.
pub fn split_levels(t: &str) -> (r: Vec<String>)
    ensures
        texts(r@) == levels_of(t@),
        r@.len() >= 1,
{
    let n: usize = t.unicode_len();
    let mut out: Vec<String> = Vec::new();
    let mut last: String = String::new();
    let mut i: usize = 0;
    assert(t@.take(0) =~= Seq::empty());
    assert(texts(out@).push(last@) =~= levels_of(t@.take(0)));
    while i < n
        invariant
            n == t@.len(),
            i <= n,
            texts(out@).push(last@) == levels_of(t@.take(i as int)),
        decreases n - i,
    {
        let ghost before = levels_of(t@.take(i as int));
        let ghost parts = texts(out@);
        let ghost word = last@;
        assert(t@.take(i + 1).drop_last() =~= t@.take(i as int));
        assert(before.drop_last() =~= parts);
        assert(before.last() == word);
        if t.get_char(i) == '.' {
            out.push(last);
            last = String::new();
            assert(texts(out@) =~= before);
            assert(texts(out@).push(last@) =~= levels_of(t@.take(i + 1)));
        } else {
            let one: &str = t.substring_char(i, i + 1);
            last.append(one);
            assert(one@ =~= seq![t@[i as int]]);
            assert(last@ =~= word.push(t@[i as int]));
            assert(texts(out@).push(last@) =~= levels_of(t@.take(i + 1)));
        }
        i = i + 1;
    }
    assert(t@.take(n as int) =~= t@);
    let ghost parts = texts(out@);
    let ghost word = last@;
    out.push(last);
    assert(texts(out@) =~= parts.push(word));
    out
}

proof fn lemma_joined_push(parts: Seq<Seq<char>>, word: Seq<char>, sep: Seq<char>)
    requires
        parts.len() >= 1,
    ensures
        joined(parts.push(word), sep) == joined(parts, sep) + sep + word,
{
    assert(parts.push(word).drop_last() =~= parts);
}

/// A namespace read from its text, and written as text again, is the same text.
pub proof fn law_levels_join_back(t: Seq<char>)
    ensures
        joined(levels_of(t), "."@) == t,
    decreases t.len(),
{
    reveal_strlit(".");
    if t.len() > 0 {
        law_levels_join_back(t.drop_last());
        lemma_some_level(t.drop_last());
        let before = levels_of(t.drop_last());
        assert(t =~= t.drop_last().push(t.last()));
        if t.last() == '.' {
            lemma_joined_push(before, Seq::empty(), "."@);
            assert(joined(levels_of(t), "."@) =~= t);
        } else {
            let grown = before.last().push(t.last());
            let head = before.drop_last();
            if head.len() == 0 {
                assert(before =~= seq![before.last()]);
                assert(levels_of(t) =~= seq![grown]);
                assert(joined(levels_of(t), "."@) =~= t);
            } else {
                assert(before =~= head.push(before.last()));
                lemma_joined_push(head, before.last(), "."@);
                lemma_joined_push(head, grown, "."@);
                assert(joined(levels_of(t), "."@) =~= t);
            }
        }
    }
}

/// No level holds a dot.
pub open spec fn dotless(parts: Seq<Seq<char>>) -> bool {
    forall|i: int, j: int| 0 <= i < parts.len() && 0 <= j < parts[i].len() ==> #[trigger] parts[i][j] != '.'
}

proof fn lemma_append_word(t: Seq<char>, word: Seq<char>)
    requires
        forall|j: int| 0 <= j < word.len() ==> #[trigger] word[j] != '.',
    ensures
        levels_of(t + word) == levels_of(t).drop_last().push(levels_of(t).last() + word),
    decreases word.len(),
{
    lemma_some_level(t);
    if word.len() == 0 {
        assert(t + word =~= t);
        assert(levels_of(t).last() + word =~= levels_of(t).last());
        assert(levels_of(t) =~= levels_of(t).drop_last().push(levels_of(t).last()));
    } else {
        let shorter = word.drop_last();
        lemma_append_word(t, shorter);
        assert((t + word).drop_last() =~= t + shorter);
        assert((t + word).last() == word.last());
        assert(word[word.len() - 1] != '.');
        let before = levels_of(t + shorter);
        assert(before.drop_last() =~= levels_of(t).drop_last());
        assert(before.last() + seq![word.last()] =~= levels_of(t).last() + word);
        assert(before.last().push(word.last()) =~= levels_of(t).last() + word);
    }
}

/// A namespace whose levels hold no dot, written as text and read again, is the same.
pub proof fn law_levels_read_back(parts: Seq<Seq<char>>)
    requires
        parts.len() >= 1,
        dotless(parts),
    ensures
        levels_of(joined(parts, "."@)) == parts,
    decreases parts.len(),
{
    reveal_strlit(".");
    let word = parts.last();
    assert forall|j: int| 0 <= j < word.len() implies #[trigger] word[j] != '.' by {
        assert(parts[parts.len() - 1][j] != '.');
    }
    if parts.len() == 1 {
        lemma_append_word(Seq::empty(), word);
        assert(Seq::<char>::empty() + word =~= word);
        assert(levels_of(Seq::<char>::empty()).drop_last() =~= Seq::empty());
        assert(levels_of(word) =~= parts);
    } else {
        let head = parts.drop_last();
        assert forall|i: int, j: int|
            0 <= i < head.len() && 0 <= j < head[i].len() implies #[trigger] head[i][j] != '.' by {
            assert(parts[i][j] != '.');
        }
        law_levels_read_back(head);
        let dotted = joined(head, "."@) + "."@;
        assert(dotted.drop_last() =~= joined(head, "."@));
        assert(dotted.last() == '.');
        assert(levels_of(dotted) =~= head.push(Seq::empty()));
        lemma_append_word(dotted, word);
        assert(joined(parts, "."@) == dotted + word);
        assert(levels_of(dotted).drop_last() =~= head);
        assert(Seq::<char>::empty() + word =~= word);
        assert(levels_of(joined(parts, "."@)) =~= parts);
    }
}

/// The namespace that a row of the catalog stands for in a list: below the parent and a
/// dot, where a parent is given, the whole of it; else its first level.
pub open spec fn row_namespace(row: Seq<char>, parent: Option<Seq<char>>) -> Option<Seq<Seq<char>>> {
    match parent {
        Some(p) => if starts_with(row, p + "."@) {
            Some(levels_of(row))
        } else {
            None
        },
        None => Some(seq![levels_of(row)[0]]),
    }
}

/// Below a parent stand the namespaces whose first levels are the parent's, and which
/// have a level more. This holds of a parent whose levels hold no dot.
pub proof fn law_listed_below_parent(row: Seq<char>, parent: Seq<Seq<char>>)
    requires
        parent.len() >= 1,
        dotless(parent),
    ensures
        row_namespace(row, Some(joined(parent, "."@))) == (if levels_of(row).len() > parent.len()
            && levels_of(row).take(parent.len() as int) == parent {
            Some(levels_of(row))
        } else {
            None
        }),
{
    reveal_strlit(".");
    let dotted = joined(parent, "."@) + "."@;
    law_levels_read_back(parent);
    assert(dotted.drop_last() =~= joined(parent, "."@));
    assert(levels_of(dotted) =~= parent.push(Seq::empty()));
    assert(levels_of(dotted).drop_last() =~= parent);
    if starts_with(row, dotted) {
        let rest = row.skip(dotted.len() as int);
        assert(row =~= dotted + rest);
        lemma_levels_stay(dotted, rest);
    }
    if levels_of(row).len() > parent.len() && levels_of(row).take(parent.len() as int) == parent {
        lemma_joined_starts(levels_of(row), parent);
        law_levels_join_back(row);
    }
}

/// All levels but the last stay when text is added.
proof fn lemma_levels_stay(t: Seq<char>, rest: Seq<char>)
    ensures
        levels_of(t).len() >= 1,
        levels_of(t + rest).len() >= levels_of(t).len(),
        levels_of(t + rest).take(levels_of(t).len() - 1) == levels_of(t).drop_last(),
    decreases rest.len(),
{
    lemma_some_level(t);
    let n = levels_of(t).len() - 1;
    if rest.len() == 0 {
        assert(t + rest =~= t);
        assert(levels_of(t).take(n) =~= levels_of(t).drop_last());
    } else {
        lemma_levels_stay(t, rest.drop_last());
        assert((t + rest).drop_last() =~= t + rest.drop_last());
        let before = levels_of(t + rest.drop_last());
        assert(levels_of(t + rest).take(n) =~= before.take(n));
    }
}

/// The text of levels begins with the text of the first of them and a dot.
proof fn lemma_joined_starts(levels: Seq<Seq<char>>, parent: Seq<Seq<char>>)
    requires
        parent.len() >= 1,
        levels.len() > parent.len(),
        levels.take(parent.len() as int) == parent,
    ensures
        starts_with(joined(levels, "."@), joined(parent, "."@) + "."@),
    decreases levels.len(),
{
    let head = levels.drop_last();
    let dotted = joined(parent, "."@) + "."@;
    assert(levels =~= head.push(levels.last()));
    lemma_joined_push(head, levels.last(), "."@);
    let text = joined(head, "."@) + "."@ + levels.last();
    if head.len() == parent.len() {
        assert(head =~= parent);
        assert(text.take(dotted.len() as int) =~= dotted);
    } else {
        assert(head.take(parent.len() as int) =~= parent);
        lemma_joined_starts(head, parent);
        assert(text.take(dotted.len() as int) =~= joined(head, "."@).take(dotted.len() as int));
    }
}

/// A list holds a namespace.
pub open spec fn lists_namespace(list: Seq<Vec<String>>, n: Seq<Seq<char>>) -> bool {
    exists|k: int| 0 <= k < list.len() && texts((#[trigger] list[k])@) == n
}

/// Some row stands for a namespace.
pub open spec fn some_row(rows: Seq<String>, parent: Option<Seq<char>>, n: Seq<Seq<char>>) -> bool {
    exists|i: int| 0 <= i < rows.len() && #[trigger] row_namespace(rows[i]@, parent) == Some(n)
}

/// A list of namespaces: each that some row stands for, once.
pub open spec fn are_namespaces(
    list: Seq<Vec<String>>,
    rows: Seq<String>,
    parent: Option<Seq<char>>,
) -> bool {
    &&& forall|k: int|
        0 <= k < list.len() ==> some_row(rows, parent, texts((#[trigger] list[k])@))
    &&& forall|i: int|
        0 <= i < rows.len() ==> (#[trigger] row_namespace(rows[i]@, parent) matches Some(n)
            ==> lists_namespace(list, n))
    &&& forall|j: int, k: int|
        0 <= j < k < list.len() ==> texts((#[trigger] list[j])@) != texts((#[trigger] list[k])@)
}

fn same_levels(a: &Vec<String>, b: &Vec<String>) -> (r: bool)
    ensures
        r == (texts(a@) == texts(b@)),
{
    if a.len() != b.len() {
        assert(texts(a@).len() != texts(b@).len());
        return false;
    }
    let mut i: usize = 0;
    while i < a.len()
        invariant
            i <= a@.len(),
            a@.len() == b@.len(),
            forall|j: int| 0 <= j < i ==> #[trigger] a@[j]@ == b@[j]@,
        decreases a@.len() - i,
    {
        if !str_same(a[i].as_str(), b[i].as_str()) {
            assert(texts(a@)[i as int] != texts(b@)[i as int]);
            return false;
        }
        i = i + 1;
    }
    assert(texts(a@) =~= texts(b@));
    true
}

fn holds_namespace(list: &Vec<Vec<String>>, n: &Vec<String>) -> (r: bool)
    ensures
        r == lists_namespace(list@, texts(n@)),
{
    let mut k: usize = 0;
    while k < list.len()
        invariant
            k <= list@.len(),
            forall|j: int| 0 <= j < k ==> texts((#[trigger] list@[j])@) != texts(n@),
        decreases list@.len() - k,
    {
        if same_levels(&list[k], n) {
            return true;
        }
        k = k + 1;
    }
    false
}

/// The namespace that a row stands for in a list.
fn namespace_of_row(row: &str, parent: Option<&str>) -> (r: Option<Vec<String>>)
    ensures
        match r {
            Some(n) => row_namespace(
                row@,
                match parent {
                    Some(p) => Some(p@),
                    None => None,
                },
            ) == Some(texts(n@)),
            None => row_namespace(
                row@,
                match parent {
                    Some(p) => Some(p@),
                    None => None,
                },
            ) is None,
        },
{
    match parent {
        Some(p) => {
            if begins_with(row, concat(p, ".").as_str()) {
                Some(split_levels(row))
            } else {
                None
            }
        },
        None => {
            let levels: Vec<String> = split_levels(row);
            let mut first: Vec<String> = Vec::new();
            first.push(levels[0].clone());
            assert(texts(first@) =~= seq![texts(levels@)[0]]);
            Some(first)
        },
    }
}

/// The namespaces of the catalog, from the texts of its rows: those below a parent,
/// or the first levels of all. A parent that does not exist is an error. The order of
/// the list means nothing.
pub fn list_namespaces(
    rows: &Vec<String>,
    parent: Option<&Vec<String>>,
    parent_exists: bool,
) -> (r: Result<Vec<Vec<String>>, CatalogFault>)
    ensures
        match r {
            Err(e) => parent is Some && !parent_exists && e is NoSuchNamespace,
            Ok(list) => (parent is Some ==> parent_exists) && are_namespaces(
                list@,
                rows@,
                match parent {
                    Some(p) => Some(joined(texts(p@), "."@)),
                    None => None,
                },
            ),
        },
{
    let path: Option<String> = match parent {
        Some(p) => {
            if !parent_exists {
                return Err(CatalogFault::NoSuchNamespace);
            }
            Some(join(p, "."))
        },
        None => None,
    };
    let ghost whole: Option<Seq<char>> = opt_text(path);
    let mut list: Vec<Vec<String>> = Vec::new();
    let mut i: usize = 0;
    while i < rows.len()
        invariant
            i <= rows@.len(),
            whole == opt_text(path),
            forall|k: int|
                0 <= k < list@.len() ==> some_row(rows@, whole, texts((#[trigger] list@[k])@)),
            forall|j: int|
                0 <= j < i ==> (#[trigger] row_namespace(rows@[j]@, whole) matches Some(n)
                    ==> lists_namespace(list@, n)),
            forall|j: int, k: int|
                0 <= j < k < list@.len() ==> texts((#[trigger] list@[j])@) != texts(
                    (#[trigger] list@[k])@,
                ),
        decreases rows@.len() - i,
    {
        let p: Option<&str> = match &path {
            Some(p) => Some(p.as_str()),
            None => None,
        };
        let ghost before = list@;
        match namespace_of_row(rows[i].as_str(), p) {
            Some(n) => {
                let ghost levels = texts(n@);
                assert(row_namespace(rows@[i as int]@, whole) == Some(levels));
                if !holds_namespace(&list, &n) {
                    list.push(n);
                    proof {
                        assert(texts(list@[before.len() as int]@) == levels);
                        assert forall|m: Seq<Seq<char>>| #[trigger] lists_namespace(before, m) implies lists_namespace(
                            list@,
                            m,
                        ) by {
                            let k = choose|k: int|
                                0 <= k < before.len() && texts((#[trigger] before[k])@) == m;
                            assert(texts(list@[k]@) == m);
                        }
                        assert forall|j: int, k: int| 0 <= j < k < list@.len() implies texts(
                            (#[trigger] list@[j])@,
                        ) != texts((#[trigger] list@[k])@) by {
                            assert(list@[j] == before[j]);
                            if k < before.len() {
                                assert(list@[k] == before[k]);
                            }
                        }
                        assert(some_row(rows@, whole, levels));
                        assert forall|k: int| 0 <= k < list@.len() implies some_row(
                            rows@,
                            whole,
                            texts((#[trigger] list@[k])@),
                        ) by {
                            if k < before.len() {
                                assert(list@[k] == before[k]);
                            }
                        }
                    }
                }
            },
            None => {},
        }
        i = i + 1;
    }
    Ok(list)
}

/// A namespace as a developer is shown it.
pub open spec fn shown_namespace(namespace: Seq<String>) -> Seq<char> {
    "NamespaceIdent(["@ + joined(shown_names(namespace), ", "@) + "])"@
}

fn show_namespace(namespace: &Vec<String>) -> (r: String)
    ensures
        r@ == shown_namespace(namespace@),
{
    let mut shown: Vec<String> = Vec::new();
    let mut i: usize = 0;
    while i < namespace.len()
        invariant
            i <= namespace@.len(),
            shown@.len() == i,
            forall|j: int|
                0 <= j < i ==> #[trigger] shown@[j]@ == crate::words::debug_text(namespace@[j]@),
        decreases namespace@.len() - i,
    {
        shown.push(debug_of(namespace[i].as_str()));
        i = i + 1;
    }
    assert(texts(shown@) =~= shown_names(namespace@));
    concat3("NamespaceIdent([", join(&shown, ", ").as_str(), "])")
}

/// The command that stores a namespace: its text, its arguments in order, and the
/// properties that the namespace then has.
pub struct NamespaceInsert {
    pub sql: String,
    pub args: Vec<String>,
    pub properties: OrderedMap<String, String>,
}

/// The command that inserts `n` properties of a namespace.
pub open spec fn insert_sql(n: nat) -> Seq<char>
    decreases n,
{
    if n <= 1 {
        "INSERT INTO iceberg_namespace_properties (catalog_name, namespace, property_key, property_value) VALUES (?, ?, ?, ?)"@
    } else {
        insert_sql((n - 1) as nat) + ", (?, ?, ?, ?)"@
    }
}

/// The arguments of one property.
pub open spec fn is_group(
    args: Seq<String>,
    i: int,
    catalog: Seq<char>,
    namespace: Seq<char>,
    entry: (String, String),
) -> bool {
    &&& args[4 * i]@ == catalog
    &&& args[4 * i + 1]@ == namespace
    &&& args[4 * i + 2] == entry.0
    &&& args[4 * i + 3] == entry.1
}

/// The arguments of the command: for each property the catalog, the namespace, the
/// property and its value.
pub open spec fn are_insert_args(
    args: Seq<String>,
    catalog: Seq<char>,
    namespace: Seq<char>,
    entries: Seq<(String, String)>,
) -> bool {
    &&& args.len() == 4 * entries.len()
    &&& forall|i: int|
        0 <= i < entries.len() ==> #[trigger] is_group(args, i, catalog, namespace, entries[i])
}

fn insert_properties(
    catalog: &str,
    namespace: &str,
    properties: &OrderedMap<String, String>,
) -> (r: (String, Vec<String>))
    requires
        properties.entries@.len() >= 1,
    ensures
        r.0@ == insert_sql(properties.entries@.len()),
        are_insert_args(r.1@, catalog@, namespace@, properties.entries@),
{
    let mut sql: String =
        "INSERT INTO iceberg_namespace_properties (catalog_name, namespace, property_key, property_value) VALUES (?, ?, ?, ?)".to_owned();
    let mut args: Vec<String> = Vec::new();
    let mut i: usize = 0;
    while i < properties.entries.len()
        invariant
            i <= properties.entries@.len(),
            sql@ == insert_sql(i as nat),
            args@.len() == 4 * i,
            forall|j: int|
                0 <= j < i ==> #[trigger] is_group(
                    args@,
                    j,
                    catalog@,
                    namespace@,
                    properties.entries@[j],
                ),
        decreases properties.entries@.len() - i,
    {
        let ghost before = args@;
        if i > 0 {
            sql.append(", (?, ?, ?, ?)");
        }
        args.push(catalog.to_owned());
        args.push(namespace.to_owned());
        args.push(properties.entries[i].0.clone());
        args.push(properties.entries[i].1.clone());
        proof {
            assert forall|j: int| 0 <= j < i + 1 implies #[trigger] is_group(
                args@,
                j,
                catalog@,
                namespace@,
                properties.entries@[j],
            ) by {
                if j < i {
                    assert(is_group(before, j, catalog@, namespace@, properties.entries@[j]));
                }
            }
        }
        i = i + 1;
    }
    (sql, args)
}

/// A namespace that was not said to have properties gets one, that it exists. One that
/// has some gets it with them.
pub open spec fn stored_properties(properties: Map<Seq<char>, String>, stored: Map<Seq<char>, String>) -> bool {
    &&& stored.dom() == properties.dom().insert("exists"@)
    &&& stored["exists"@]@ == "true"@
    &&& forall|k: Seq<char>| #[trigger]
        properties.dom().contains(k) && k != "exists"@ ==> stored[k] == properties[k]
}

/// The creation of a namespace. The namespace that comes back has the mark that it
/// exists among its properties only where others were given.
pub fn create_namespace(
    catalog: &str,
    namespace: &Vec<String>,
    exists: bool,
    properties: OrderedMap<String, String>,
) -> (r: Result<NamespaceInsert, CatalogFault>)
    requires
        properties.wf(),
    ensures
        match r {
            Err(e) => exists && (e matches CatalogFault::Unexpected(m) && m@ == "Namespace "@
                + shown_namespace(namespace@) + " already exists"@),
            Ok(insert) => {
                &&& !exists
                &&& exists|stored: OrderedMap<String, String>|
                    {
                        &&& #[trigger] stored.wf()
                        &&& stored_properties(properties@, stored@)
                        &&& insert.sql@ == insert_sql(stored.entries@.len())
                        &&& are_insert_args(
                            insert.args@,
                            catalog@,
                            joined(texts(namespace@), "."@),
                            stored.entries@,
                        )
                        &&& insert.properties.wf()
                        &&& insert.properties@ == (if properties.entries@.len() == 0 {
                            properties@
                        } else {
                            stored@
                        })
                    }
            },
        },
{
    if exists {
        return Err(
            CatalogFault::Unexpected(
                concat3("Namespace ", show_namespace(namespace).as_str(), " already exists"),
            ),
        );
    }
    let path: String = join(namespace, ".");
    let ghost given = properties@;
    let bare: bool = properties.len() == 0;
    let mut stored: OrderedMap<String, String> = properties;
    let ghost mark = "exists"@;
    stored.insert("exists".to_owned(), "true".to_owned());
    assert(stored_properties(given, stored@)) by {
        assert(stored@.dom() =~= given.dom().insert(mark));
    }
    proof {
        if stored.entries@.len() == 0 {
            assert(stored@.dom().contains(mark));
            crate::ordered::lemma_no_entries(&stored);
        }
    }
    let (sql, args): (String, Vec<String>) = insert_properties(catalog, path.as_str(), &stored);
    if bare {
        let none: OrderedMap<String, String> = OrderedMap::new();
        proof {
            crate::ordered::lemma_no_entries(&properties);
            assert(none@ =~= given);
            assert(stored.wf());
        }
        Ok(NamespaceInsert { sql, args, properties: none })
    } else {
        assert(stored.wf());
        Ok(NamespaceInsert { sql, args, properties: stored })
    }
}

/// What is stored to bring the properties of a namespace to what is wanted: the ones
/// that are there with another value are changed, the ones that are missing are added.
pub struct NamespaceUpdate {
    pub updates: Vec<(String, String)>,
    pub inserts: Vec<(String, String)>,
}

/// A wanted property that is there with another value.
pub open spec fn differs(existing: Map<Seq<char>, String>, p: (String, String)) -> bool {
    existing.dom().contains(p.0@) && existing[p.0@]@ != p.1@
}

/// A wanted property that is missing.
pub open spec fn missing(existing: Map<Seq<char>, String>, p: (String, String)) -> bool {
    !existing.dom().contains(p.0@)
}

/// What is stored to bring the properties of a namespace to what is wanted. Those that
/// are not mentioned stay.
pub fn update_namespace(
    exists: bool,
    existing: &OrderedMap<String, String>,
    wanted: &OrderedMap<String, String>,
) -> (r: Result<NamespaceUpdate, CatalogFault>)
    requires
        existing.wf(),
    ensures
        match r {
            Err(e) => !exists && e is NoSuchNamespace,
            Ok(u) => {
                &&& exists
                &&& u.updates@ == filtered(
                    wanted.entries@,
                    |p: (String, String)| differs(existing@, p),
                )
                &&& u.inserts@ == filtered(
                    wanted.entries@,
                    |p: (String, String)| missing(existing@, p),
                )
            },
        },
{
    if !exists {
        return Err(CatalogFault::NoSuchNamespace);
    }
    let ghost change = |p: (String, String)| differs(existing@, p);
    let ghost lack = |p: (String, String)| missing(existing@, p);
    let mut updates: Vec<(String, String)> = Vec::new();
    let mut inserts: Vec<(String, String)> = Vec::new();
    let mut i: usize = 0;
    assert(wanted.entries@.take(0) =~= Seq::empty());
    while i < wanted.entries.len()
        invariant
            existing.wf(),
            change == (|p: (String, String)| differs(existing@, p)),
            lack == (|p: (String, String)| missing(existing@, p)),
            i <= wanted.entries@.len(),
            updates@ == filtered(wanted.entries@.take(i as int), change),
            inserts@ == filtered(wanted.entries@.take(i as int), lack),
        decreases wanted.entries@.len() - i,
    {
        let key: String = wanted.entries[i].0.clone();
        let value: String = wanted.entries[i].1.clone();
        let ghost p = wanted.entries@[i as int];
        assert((key, value) == p);
        assert(wanted.entries@.take(i + 1).drop_last() =~= wanted.entries@.take(i as int));
        assert(wanted.entries@.take(i + 1).last() == p);
        match existing.get(&key) {
            Some(v) => {
                if !str_same(v.as_str(), value.as_str()) {
                    updates.push((key, value));
                }
            },
            None => inserts.push((key, value)),
        }
        i = i + 1;
    }
    assert(wanted.entries@.take(i as int) =~= wanted.entries@);
    Ok(NamespaceUpdate { updates, inserts })
}

/// After an update each wanted property has the wanted value: it was added, it was
/// changed, or it had the value before.
pub proof fn law_update_reaches_wanted(
    existing: Map<Seq<char>, String>,
    wanted: Seq<(String, String)>,
    p: (String, String),
)
    requires
        wanted.contains(p),
    ensures
        ({
            let updates = filtered(wanted, |q: (String, String)| differs(existing, q));
            let inserts = filtered(wanted, |q: (String, String)| missing(existing, q));
            ||| updates.contains(p) && !inserts.contains(p)
            ||| inserts.contains(p) && !updates.contains(p)
            ||| existing.dom().contains(p.0@) && existing[p.0@]@ == p.1@ && !updates.contains(p)
                && !inserts.contains(p)
        }),
{
    crate::vecs::lemma_filtered(wanted, |q: (String, String)| differs(existing, q), p);
    crate::vecs::lemma_filtered(wanted, |q: (String, String)| missing(existing, q), p);
}

/// Whether a namespace may be dropped: it exists, and has no table.
pub fn drop_namespace(namespace: &Vec<String>, exists: bool, tables: usize) -> (r: Result<
    (),
    CatalogFault,
>)
    ensures
        match r {
            Ok(_) => exists && tables == 0,
            Err(CatalogFault::NoSuchNamespace) => !exists,
            Err(CatalogFault::Unexpected(m)) => exists && tables > 0 && m@ == "Namespace "@
                + shown_namespace(namespace@) + " is not empty. "@ + nat_text(tables as nat)
                + " tables exist."@,
            Err(_) => false,
        },
{
    if !exists {
        return Err(CatalogFault::NoSuchNamespace);
    }
    if tables != 0 {
        let mut s: String = "Namespace ".to_owned();
        s.append(show_namespace(namespace).as_str());
        s.append(" is not empty. ");
        s.append(usize_text(tables).as_str());
        s.append(" tables exist.");
        return Err(CatalogFault::Unexpected(s));
    }
    Ok(())
}

/// Where a new table is kept: where its creation says, else below the place of its
/// namespace, which is below the warehouse where the namespace does not say.
pub open spec fn location_of(
    location: Option<Seq<char>>,
    namespace_location: Option<Seq<char>>,
    warehouse: Seq<char>,
    namespace: Seq<Seq<char>>,
    name: Seq<char>,
) -> Seq<char> {
    match location {
        Some(l) => l,
        None => (match namespace_location {
            Some(l) => l,
            None => warehouse + "/"@ + joined(namespace, "/"@),
        }) + "/"@ + name,
    }
}

/// What an optional text holds.
pub open spec fn opt_text(t: Option<String>) -> Option<Seq<char>> {
    match t {
        Some(s) => Some(s@),
        None => None,
    }
}

/// Where a new table is kept.
pub fn table_location(
    location: Option<String>,
    namespace_location: Option<String>,
    warehouse: &str,
    namespace: &Vec<String>,
    name: &str,
) -> (r: String)
    ensures
        r@ == location_of(
            opt_text(location),
            opt_text(namespace_location),
            warehouse@,
            texts(namespace@),
            name@,
        ),
{
    match location {
        Some(l) => l,
        None => {
            let base: String = match namespace_location {
                Some(l) => l,
                None => concat3(warehouse, "/", join(namespace, "/").as_str()),
            };
            concat3(base.as_str(), "/", name)
        },
    }
}

/// The properties of a namespace, from the rows that hold them. One that does not
/// exist is an error.
pub fn get_namespace(exists: bool, pairs: Vec<(String, String)>) -> (r: Result<
    OrderedMap<String, String>,
    CatalogFault,
>)
    ensures
        match r {
            Ok(props) => exists && props.wf() && props@ == with_props(Map::empty(), pairs@),
            Err(e) => !exists && e is NoSuchNamespace,
        },
{
    if !exists {
        return Err(CatalogFault::NoSuchNamespace);
    }
    let mut props: OrderedMap<String, String> = OrderedMap::new();
    set_props(&mut props, pairs);
    Ok(props)
}

/// Whether a namespace exists, from whether some table is in it and whether it has a
/// row of its own, which is asked for only where no table is.
pub fn namespace_exists(has_table: bool, has_row: Option<bool>) -> (r: Option<bool>)
    ensures
        r == (if has_table {
            Some(true)
        } else {
            has_row
        }),
{
    if has_table {
        Some(true)
    } else {
        has_row
    }
}

/// A row of a table: its name and the text of its namespace.
#[derive(Debug)]
pub struct TableRow {
    pub name: String,
    pub namespace: String,
}

/// A row stands for a table.
pub open spec fn row_table(row: TableRow, t: TableName) -> bool {
    t.name@ == row.name@ && texts(t.namespace@) == levels_of(row.namespace@)
}

/// Some row stands for a table.
pub open spec fn some_table_row(rows: Seq<TableRow>, t: TableName) -> bool {
    exists|i: int| 0 <= i < rows.len() && row_table(#[trigger] rows[i], t)
}

/// A list holds the table of a row.
pub open spec fn lists_row(list: Seq<TableName>, row: TableRow) -> bool {
    exists|k: int| 0 <= k < list.len() && row_table(row, #[trigger] list[k])
}

/// The tables of the rows, each once.
pub open spec fn are_tables(list: Seq<TableName>, rows: Seq<TableRow>) -> bool {
    &&& forall|k: int| 0 <= k < list.len() ==> some_table_row(rows, #[trigger] list[k])
    &&& forall|i: int| 0 <= i < rows.len() ==> lists_row(list, #[trigger] rows[i])
    &&& forall|j: int, k: int|
        0 <= j < k < list.len() ==> !same_name(#[trigger] list[j], #[trigger] list[k])
}

fn holds_table(list: &Vec<TableName>, t: &TableName) -> (r: bool)
    ensures
        r == exists|k: int| 0 <= k < list@.len() && same_name(#[trigger] list@[k], *t),
{
    let mut k: usize = 0;
    while k < list.len()
        invariant
            k <= list@.len(),
            forall|j: int| 0 <= j < k ==> !same_name(#[trigger] list@[j], *t),
        decreases list@.len() - k,
    {
        if same_levels(&list[k].namespace, &t.namespace) && str_same(
            list[k].name.as_str(),
            t.name.as_str(),
        ) {
            return true;
        }
        k = k + 1;
    }
    false
}

/// The tables of a namespace, each once. A namespace that does not exist is an error.
/// The order of the list means nothing.
pub fn list_tables(exists: bool, rows: &Vec<TableRow>) -> (r: Result<Vec<TableName>, CatalogFault>)
    ensures
        match r {
            Err(e) => !exists && e is NoSuchNamespace,
            Ok(list) => exists && are_tables(list@, rows@),
        },
{
    if !exists {
        return Err(CatalogFault::NoSuchNamespace);
    }
    let mut list: Vec<TableName> = Vec::new();
    let mut i: usize = 0;
    while i < rows.len()
        invariant
            i <= rows@.len(),
            forall|k: int| 0 <= k < list@.len() ==> some_table_row(rows@, #[trigger] list@[k]),
            forall|j: int| 0 <= j < i ==> lists_row(list@, #[trigger] rows@[j]),
            forall|j: int, k: int|
                0 <= j < k < list@.len() ==> !same_name(#[trigger] list@[j], #[trigger] list@[k]),
        decreases rows@.len() - i,
    {
        let row: &TableRow = &rows[i];
        let t = TableName {
            namespace: split_levels(row.namespace.as_str()),
            name: row.name.clone(),
        };
        let ghost before = list@;
        assert(row_table(rows@[i as int], t));
        if !holds_table(&list, &t) {
            list.push(t);
            proof {
                assert(list@[before.len() as int] == t);
                assert(some_table_row(rows@, t));
                assert forall|j: int| 0 <= j < i + 1 implies lists_row(list@, #[trigger] rows@[j]) by {
                    if j < i {
                        assert(lists_row(before, rows@[j]));
                        let k = choose|k: int|
                            0 <= k < before.len() && row_table(rows@[j], #[trigger] before[k]);
                        assert(row_table(rows@[j], list@[k]));
                    }
                }
                assert forall|k: int| 0 <= k < list@.len() implies some_table_row(
                    rows@,
                    #[trigger] list@[k],
                ) by {
                    if k < before.len() {
                        assert(list@[k] == before[k]);
                    }
                }
                assert forall|j: int, k: int| 0 <= j < k < list@.len() implies !same_name(
                    #[trigger] list@[j],
                    #[trigger] list@[k],
                ) by {
                    assert(list@[j] == before[j]);
                    if k < before.len() {
                        assert(list@[k] == before[k]);
                    }
                }
            }
        } else {
            proof {
                let k = choose|k: int| 0 <= k < list@.len() && same_name(#[trigger] list@[k], t);
                assert(row_table(rows@[i as int], list@[k]));
            }
        }
        i = i + 1;
    }
    Ok(list)
}

/// What an operation on a table does next, from what it was told so far.
#[derive(Debug)]
pub enum CatalogStep {
    /// Ask whether the namespace exists.
    AskNamespace,
    /// Ask whether the table exists.
    AskTable,
    /// Ask whether the table of the new name exists.
    AskTarget,
    /// Do it.
    Proceed,
    /// There is nothing to do.
    Skip,
    /// Refuse it.
    Refuse(CatalogFault),
}

/// The creation of a table: its namespace must exist, and no table of its name may.
pub open spec fn create_step(namespace: Option<bool>, table: Option<bool>) -> CatalogStep {
    match (namespace, table) {
        (None, _) => CatalogStep::AskNamespace,
        (Some(false), _) => CatalogStep::Refuse(CatalogFault::NoSuchNamespace),
        (Some(true), None) => CatalogStep::AskTable,
        (Some(true), Some(true)) => CatalogStep::Refuse(CatalogFault::TableAlreadyExists),
        (Some(true), Some(false)) => CatalogStep::Proceed,
    }
}

/// The creation of a table: its namespace must exist, the table must not.
pub fn create_table(namespace: Option<bool>, table: Option<bool>) -> (r: CatalogStep)
    ensures
        r == create_step(namespace, table),
{
    match namespace {
        None => CatalogStep::AskNamespace,
        Some(there) => {
            if !there {
                CatalogStep::Refuse(CatalogFault::NoSuchNamespace)
            } else {
                register_table(table)
            }
        },
    }
}

/// The registration of a table: no table of its name may exist.
pub open spec fn register_step(table: Option<bool>) -> CatalogStep {
    match table {
        None => CatalogStep::AskTable,
        Some(true) => CatalogStep::Refuse(CatalogFault::TableAlreadyExists),
        Some(false) => CatalogStep::Proceed,
    }
}

/// The registration of a table: it must not exist.
pub fn register_table(table: Option<bool>) -> (r: CatalogStep)
    ensures
        r == register_step(table),
{
    match table {
        None => CatalogStep::AskTable,
        Some(there) => {
            if there {
                CatalogStep::Refuse(CatalogFault::TableAlreadyExists)
            } else {
                CatalogStep::Proceed
            }
        },
    }
}

/// The loading of a table: it must exist.
pub open spec fn load_step(table: Option<bool>) -> CatalogStep {
    match table {
        None => CatalogStep::AskTable,
        Some(true) => CatalogStep::Proceed,
        Some(false) => CatalogStep::Refuse(CatalogFault::NoSuchTable),
    }
}

/// The loading of a table: it must exist.
pub fn load_table(table: Option<bool>) -> (r: CatalogStep)
    ensures
        r == load_step(table),
{
    match table {
        None => CatalogStep::AskTable,
        Some(there) => {
            if there {
                CatalogStep::Proceed
            } else {
                CatalogStep::Refuse(CatalogFault::NoSuchTable)
            }
        },
    }
}

/// The name of a table and its namespace.
#[derive(Debug)]
pub struct TableName {
    pub namespace: Vec<String>,
    pub name: String,
}

/// Whether two names are the same.
pub open spec fn same_name(a: TableName, b: TableName) -> bool {
    texts(a.namespace@) == texts(b.namespace@) && a.name@ == b.name@
}

/// The renaming of a table: it and the namespace that it goes to must exist, and no table
/// of the new name may.
pub open spec fn rename_step(
    src: TableName,
    dest: TableName,
    table: Option<bool>,
    namespace: Option<bool>,
    target: Option<bool>,
) -> CatalogStep {
    if same_name(src, dest) {
        CatalogStep::Skip
    } else {
        match (table, namespace, target) {
            (None, _, _) => CatalogStep::AskTable,
            (Some(false), _, _) => CatalogStep::Refuse(CatalogFault::NoSuchTable),
            (Some(true), None, _) => CatalogStep::AskNamespace,
            (Some(true), Some(false), _) => CatalogStep::Refuse(CatalogFault::NoSuchNamespace),
            (Some(true), Some(true), None) => CatalogStep::AskTarget,
            (Some(true), Some(true), Some(true)) => CatalogStep::Refuse(
                CatalogFault::TableAlreadyExists,
            ),
            (Some(true), Some(true), Some(false)) => CatalogStep::Proceed,
        }
    }
}

/// The renaming of a table: nothing is asked where the name stays; else the table must
/// exist, then the new namespace must, and a table of the new name must not.
pub fn rename_table(
    src: &TableName,
    dest: &TableName,
    table: Option<bool>,
    namespace: Option<bool>,
    target: Option<bool>,
) -> (r: CatalogStep)
    ensures
        r == rename_step(*src, *dest, table, namespace, target),
{
    if same_levels(&src.namespace, &dest.namespace) && str_same(src.name.as_str(), dest.name.as_str()) {
        return CatalogStep::Skip;
    }
    match load_table(table) {
        CatalogStep::Proceed => match namespace {
            None => CatalogStep::AskNamespace,
            Some(there) => {
                if !there {
                    CatalogStep::Refuse(CatalogFault::NoSuchNamespace)
                } else {
                    match target {
                        None => CatalogStep::AskTarget,
                        Some(taken) => {
                            if taken {
                                CatalogStep::Refuse(CatalogFault::TableAlreadyExists)
                            } else {
                                CatalogStep::Proceed
                            }
                        },
                    }
                }
            },
        },
        other => other,
    }
}

/// What dropping a table does next.
#[derive(Debug)]
pub enum DropStep {
    /// Ask whether the table exists.
    AskTable,
    /// Open a transaction, delete the pointer, and ask whether the mirror has the
    /// table live.
    DeletePointer,
    /// Make a snapshot and end the table in the mirror at it, then commit.
    EndMirror,
    /// Commit. No snapshot is spent on a table that was never written.
    Commit,
    /// There is no such table.
    Refuse(CatalogFault),
}

/// The dropping of a table: it must exist; its pointer goes, and what is live of it in the
/// mirror ends.
pub open spec fn drop_step(table: Option<bool>, mirrored: Option<bool>) -> DropStep {
    match (table, mirrored) {
        (None, _) => DropStep::AskTable,
        (Some(false), _) => DropStep::Refuse(CatalogFault::NoSuchTable),
        (Some(true), None) => DropStep::DeletePointer,
        (Some(true), Some(true)) => DropStep::EndMirror,
        (Some(true), Some(false)) => DropStep::Commit,
    }
}

/// The dropping of a table.
pub fn drop_table(table: Option<bool>, mirrored: Option<bool>) -> (r: DropStep)
    ensures
        r == drop_step(table, mirrored),
{
    match table {
        None => DropStep::AskTable,
        Some(there) => {
            if !there {
                DropStep::Refuse(CatalogFault::NoSuchTable)
            } else {
                match mirrored {
                    None => DropStep::DeletePointer,
                    Some(live) => {
                        if live {
                            DropStep::EndMirror
                        } else {
                            DropStep::Commit
                        }
                    },
                }
            }
        },
    }
}

} // verus!
