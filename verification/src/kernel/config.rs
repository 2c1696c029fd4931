//! The daemon's configuration file.
use vstd::prelude::*;
use vstd::string::*;
use crate::document::{
    a_fault_is_named, as_array, as_str, check_views, fault_text, find_fault, held, held_all,
    names_a_field, parse, parsed, CheckView, FieldCheck, Toml,
};
use crate::node::codec::{
    as_ints_u32, every, field, held_at, integer_in, integers_in, read_integer, read_u32s,
};
use crate::space::{copy_numbers, Topology, TopologyError};
use crate::text::{decimal, decimal_text, texts};

verus! {

/// The configuration.
#[derive(Debug, PartialEq, Eq)]
pub struct NtkdConfig {
    gsizes: Vec<u32>,
    nics: Vec<String>,
    port: u16,
    andna_key_path: Option<String>,
    node_key_path: Option<String>,
    require_auth: bool,
}

/// What an [`NtkdConfig`] says.
pub struct ConfigView {
    /// The g-node sizes, leaf level first.
    pub gsizes: Seq<int>,
    /// The interfaces to use.
    pub nics: Seq<Seq<char>>,
    /// The port.
    pub port: int,
    /// Where the key that owns hostnames is kept.
    pub andna_key_path: Option<Seq<char>>,
    /// Where the key that signs requests is kept.
    pub node_key_path: Option<Seq<char>>,
    /// Whether requests must be signed.
    pub require_auth: bool,
}

/// The text of an optional string.
pub open spec fn text_at(s: Option<String>) -> Option<Seq<char>> {
    match s {
        Some(s) => Some(s@),
        None => None,
    }
}

/// Why there is no configuration.
#[allow(inconsistent_fields)]
#[derive(Debug, PartialEq, Eq)]
pub enum ConfigError {
    /// The file could not be read.
    Io {
        /// The file.
        path: String,
        /// Why.
        source: String,
    },
    /// The file was read and is no configuration.
    Parse {
        /// The file.
        path: String,
        /// Why.
        source: Box<ConfigError>,
    },
    /// The text is no TOML document with the right fields.
    Toml(String),
    /// The g-node sizes are no topology.
    Topology(TopologyError),
    /// Requests must be signed, but there is no key to sign with.
    AuthWithoutKey,
}

impl TopologyError {
    /// The message for an operator.
    pub open spec fn printed(&self) -> Seq<char> {
        match *self {
            TopologyError::Empty => "a topology needs at least one level"@,
            TopologyError::ZeroGsize { level } => "the g-node size at level "@ + decimal(
                level as nat,
            ) + " is zero"@,
        }
    }

    /// The message for an operator.
    pub fn message(&self) -> (r: String)
        ensures
            r@ == self.printed(),
    {
        match self {
            TopologyError::Empty => String::from_str("a topology needs at least one level"),
            TopologyError::ZeroGsize { level } => {
                let mut r = String::from_str("the g-node size at level ");
                r.append(decimal_text(*level as u64).as_str());
                r.append(" is zero");
                r
            },
        }
    }
}

impl ConfigError {
    /// The message for an operator.
    pub open spec fn printed(&self) -> Seq<char>
        decreases self,
    {
        match *self {
            ConfigError::Io { path, source } => "failed to read config file "@ + path@ + ": "@
                + source@,
            ConfigError::Parse { path, source } => "failed to load config "@ + path@ + ": "@
                + source.printed(),
            ConfigError::Toml(reason) => "failed to parse config: "@ + reason@,
            ConfigError::Topology(error) => "invalid topology: "@ + error.printed(),
            ConfigError::AuthWithoutKey =>
                "require_auth is set but no node_key_path is configured"@,
        }
    }

    /// The message for an operator.
    pub fn message(&self) -> (r: String)
        ensures
            r@ == self.printed(),
        decreases self,
    {
        match self {
            ConfigError::Io { path, source } => {
                let mut r = String::from_str("failed to read config file ");
                r.append(path.as_str());
                r.append(": ");
                r.append(source.as_str());
                r
            },
            ConfigError::Parse { path, source } => {
                let mut r = String::from_str("failed to load config ");
                r.append(path.as_str());
                r.append(": ");
                r.append(source.message().as_str());
                r
            },
            ConfigError::Toml(reason) => {
                let mut r = String::from_str("failed to parse config: ");
                r.append(reason.as_str());
                r
            },
            ConfigError::Topology(error) => {
                let mut r = String::from_str("invalid topology: ");
                r.append(error.message().as_str());
                r
            },
            ConfigError::AuthWithoutKey => String::from_str(
                "require_auth is set but no node_key_path is configured",
            ),
        }
    }
}

/// The strings of an array.
pub open spec fn texts_in(v: Option<Toml>) -> Option<Seq<Seq<char>>> {
    match v {
        Some(Toml::Array(a)) => every(a.map_values(|x: Toml| x.text())),
        _ => None,
    }
}

/// A field that may be left out, but must be a string where it stands.
pub open spec fn optional_text_in(v: Option<Toml>) -> Option<Option<Seq<char>>> {
    match v {
        None => Some(None),
        Some(Toml::Text(s)) => Some(Some(s)),
        Some(_) => None,
    }
}

/// A field that may be left out for `false`, but must be a truth value where it stands.
pub open spec fn optional_flag_in(v: Option<Toml>) -> Option<bool> {
    match v {
        None => Some(false),
        Some(Toml::Boolean(b)) => Some(b),
        Some(_) => None,
    }
}

/// The configuration that a document holds. Fields of other names are passed over.
pub open spec fn config_in(d: Toml) -> Option<ConfigView> {
    let gsizes = integers_in(d.field("gsizes"@), 0, u32::MAX as int);
    let nics = texts_in(d.field("nics"@));
    let port = integer_in(d.field("port"@), 0, u16::MAX as int);
    let andna_key_path = optional_text_in(d.field("andna_key_path"@));
    let node_key_path = optional_text_in(d.field("node_key_path"@));
    let require_auth = optional_flag_in(d.field("require_auth"@));
    if gsizes is Some && nics is Some && port is Some && andna_key_path is Some
        && node_key_path is Some && require_auth is Some {
        Some(
            ConfigView {
                gsizes: gsizes->Some_0,
                nics: nics->Some_0,
                port: port->Some_0,
                andna_key_path: andna_key_path->Some_0,
                node_key_path: node_key_path->Some_0,
                require_auth: require_auth->Some_0,
            },
        )
    } else {
        None
    }
}

/// The fields of a configuration, and whether those of `d` fit.
pub open spec fn config_checks(d: Toml) -> Seq<CheckView> {
    seq![
        CheckView {
            name: "gsizes"@,
            fits: integers_in(d.field("gsizes"@), 0, u32::MAX as int) is Some,
            required: true,
        },
        CheckView { name: "nics"@, fits: texts_in(d.field("nics"@)) is Some, required: true },
        CheckView {
            name: "port"@,
            fits: integer_in(d.field("port"@), 0, u16::MAX as int) is Some,
            required: true,
        },
        CheckView {
            name: "andna_key_path"@,
            fits: optional_text_in(d.field("andna_key_path"@)) is Some,
            required: false,
        },
        CheckView {
            name: "node_key_path"@,
            fits: optional_text_in(d.field("node_key_path"@)) is Some,
            required: false,
        },
        CheckView {
            name: "require_auth"@,
            fits: optional_flag_in(d.field("require_auth"@)) is Some,
            required: false,
        },
    ]
}

/// A document that is no configuration for its fields is refused by the name of one of them: the
/// first that does not fit, or else the first that is left out.
pub proof fn a_refused_configuration_names_its_field(d: Toml)
    requires
        config_in(d) is None,
    ensures
        names_a_field(fault_text(d, config_checks(d)), config_checks(d)),
{
    let checks = config_checks(d);
    let i: int = if !checks[0].fits {
        0
    } else if !checks[1].fits {
        1
    } else if !checks[2].fits {
        2
    } else if !checks[3].fits {
        3
    } else if !checks[4].fits {
        4
    } else {
        5
    };
    assert(!checks[i].fits);
    a_fault_is_named(d, checks, i);
}

/// A document is a configuration, as far as its fields go, exactly if each of them fits. The sizes,
/// the interfaces and the port may not be left out, and the rest may.
pub proof fn a_configuration_is_read_where_all_fields_fit(d: Toml)
    ensures
        config_in(d) is Some <==> forall|i: int|
            0 <= i < config_checks(d).len() ==> (#[trigger] config_checks(d)[i]).fits,
        forall|i: int|
            0 <= i < config_checks(d).len() ==> (d.field(
                (#[trigger] config_checks(d)[i]).name,
            ) is None ==> (config_checks(d)[i].fits <==> !config_checks(d)[i].required)),
        forall|i: int|
            0 <= i < config_checks(d).len() ==> ((#[trigger] config_checks(d)[i]).required
                <==> config_checks(d)[i].name == "gsizes"@ || config_checks(d)[i].name == "nics"@
                || config_checks(d)[i].name == "port"@),
{
    let checks = config_checks(d);
    reveal_strlit("gsizes");
    reveal_strlit("nics");
    reveal_strlit("port");
    reveal_strlit("andna_key_path");
    reveal_strlit("node_key_path");
    reveal_strlit("require_auth");
    assert(checks.len() == 6);
    assert("gsizes"@.len() == 6 && "nics"@.len() == 4 && "port"@.len() == 4);
    assert("andna_key_path"@.len() == 14 && "node_key_path"@.len() == 13 && "require_auth"@.len()
        == 12);
    assert forall|i: int| 0 <= i < checks.len() implies (d.field(
        (#[trigger] checks[i]).name,
    ) is None ==> (checks[i].fits <==> !checks[i].required)) && (checks[i].required
        <==> checks[i].name == "gsizes"@ || checks[i].name == "nics"@ || checks[i].name
        == "port"@) by {
        assert(i == 0 || i == 1 || i == 2 || i == 3 || i == 4 || i == 5);
    }
    if forall|i: int| 0 <= i < checks.len() ==> (#[trigger] checks[i]).fits {
        assert(checks[0].fits && checks[1].fits && checks[2].fits && checks[3].fits
            && checks[4].fits && checks[5].fits);
    }
}

/// What is wrong with a configuration that has the right fields, if anything is.
pub open spec fn config_fault(c: ConfigView) -> Option<ConfigError> {
    if c.gsizes.len() == 0 {
        Some(ConfigError::Topology(TopologyError::Empty))
    } else if exists|l: int| 0 <= l < c.gsizes.len() && #[trigger] c.gsizes[l] == 0 {
        let level = choose|l: int|
            0 <= l < c.gsizes.len() && #[trigger] c.gsizes[l] == 0 && forall|k: int|
                0 <= k < l ==> #[trigger] c.gsizes[k] != 0;
        Some(ConfigError::Topology(TopologyError::ZeroGsize { level: level as usize }))
    } else if c.require_auth && c.node_key_path is None {
        Some(ConfigError::AuthWithoutKey)
    } else {
        None
    }
}

/// A configuration says what its fields hold: the sizes, the interfaces and the port must stand
/// there and fit, and what may be left out counts as absent or `false` where it is.
pub proof fn a_configuration_says_what_its_fields_hold(d: Toml, c: ConfigView)
    ensures
        config_in(d) == Some(c) <==> {
            &&& integers_in(d.field("gsizes"@), 0, 0xffff_ffff) == Some(c.gsizes)
            &&& texts_in(d.field("nics"@)) == Some(c.nics)
            &&& d.field("port"@) == Some(Toml::Integer(c.port)) && 0 <= c.port <= 65_535
            &&& d.field("andna_key_path"@) == match c.andna_key_path {
                Some(path) => Some(Toml::Text(path)),
                None => None,
            }
            &&& d.field("node_key_path"@) == match c.node_key_path {
                Some(path) => Some(Toml::Text(path)),
                None => None,
            }
            &&& d.field("require_auth"@) == Some(Toml::Boolean(c.require_auth)) || (d.field(
                "require_auth"@,
            ) is None && !c.require_auth)
        },
{
}

/// A list of texts is read as what it holds, and not at all where one of its members is no text.
pub proof fn texts_are_read_as_they_stand(a: Seq<Toml>, s: Seq<Seq<char>>)
    ensures
        texts_in(Some(Toml::Array(a))) == Some(s) <==> a.len() == s.len() && forall|i: int|
            0 <= i < a.len() ==> #[trigger] a[i] == Toml::Text(s[i]),
        texts_in(None) is None,
{
    let opts = a.map_values(|x: Toml| x.text());
    if texts_in(Some(Toml::Array(a))) == Some(s) {
        assert(opts.map_values(|o: Option<Seq<char>>| o->Some_0) == s);
        assert forall|i: int| 0 <= i < a.len() implies #[trigger] a[i] == Toml::Text(s[i]) by {
            assert(opts[i] is Some);
            assert(opts[i] == a[i].text());
        }
    }
    if a.len() == s.len() && forall|i: int|
        0 <= i < a.len() ==> #[trigger] a[i] == Toml::Text(s[i]) {
        assert forall|i: int| 0 <= i < opts.len() implies #[trigger] opts[i] == Some(s[i]) by {
            assert(a[i] == Toml::Text(s[i]));
        }
        assert(opts.map_values(|o: Option<Seq<char>>| o->Some_0) =~= s);
    }
}

/// A configuration will do exactly if it has a level, no empty g-node, and a key wherever requests
/// must be signed; else the first of these that is amiss is told, and of several empty g-nodes the
/// lowest.
pub proof fn a_configuration_needs_levels_and_keys(c: ConfigView, level: int)
    ensures
        config_fault(c) is None <==> c.gsizes.len() > 0 && (forall|l: int|
            0 <= l < c.gsizes.len() ==> #[trigger] c.gsizes[l] != 0) && (!c.require_auth
            || c.node_key_path is Some),
        c.gsizes.len() == 0 ==> config_fault(c) == Some(
            ConfigError::Topology(TopologyError::Empty),
        ),
        0 <= level < c.gsizes.len() && c.gsizes[level] == 0 && (forall|l: int|
            0 <= l < level ==> #[trigger] c.gsizes[l] != 0) ==> config_fault(c) == Some(
            ConfigError::Topology(TopologyError::ZeroGsize { level: level as usize }),
        ),
        c.gsizes.len() > 0 && (forall|l: int|
            0 <= l < c.gsizes.len() ==> #[trigger] c.gsizes[l] != 0) && c.require_auth
            && c.node_key_path is None ==> config_fault(c) == Some(ConfigError::AuthWithoutKey),
{
    if 0 <= level < c.gsizes.len() && c.gsizes[level] == 0 && (forall|l: int|
        0 <= l < level ==> #[trigger] c.gsizes[l] != 0) {
        let other = choose|l: int|
            0 <= l < c.gsizes.len() && #[trigger] c.gsizes[l] == 0 && forall|k: int|
                0 <= k < l ==> #[trigger] c.gsizes[k] != 0;
        if other < level {
            assert(c.gsizes[other] != 0);
        } else if level < other {
            assert(c.gsizes[level] != 0);
        }
    }
}

/// The configuration that a document holds, if it holds one that will do.
pub open spec fn config_of(d: Toml) -> Option<ConfigView> {
    match config_in(d) {
        None => None,
        Some(c) => if config_fault(c) is None {
            Some(c)
        } else {
            None
        },
    }
}

/// The error says why a document holds no configuration.
pub open spec fn is_at_fault(error: ConfigError, d: Toml) -> bool {
    match config_in(d) {
        None => error is Toml && error->Toml_0@ == fault_text(d, config_checks(d)),
        Some(c) => config_fault(c) == Some(error),
    }
}

/// The configuration that a text holds, if it holds one.
pub open spec fn accepted(text: Seq<char>) -> Option<ConfigView> {
    match parsed(text) {
        Err(_) => None,
        Ok(d) => config_of(d),
    }
}

/// The error says why a text holds no configuration.
pub open spec fn explains(error: ConfigError, text: Seq<char>) -> bool {
    match parsed(text) {
        Err(reason) => error is Toml && error->Toml_0@ == reason,
        Ok(d) => is_at_fault(error, d),
    }
}

/// A text is accepted exactly if it is a document, that has the right fields, and they will do. An
/// error never explains a text that is accepted; it gives the reason why a text is no document, names
/// the field of one that has not the right ones, and says what is amiss with one that has.
pub proof fn a_text_is_accepted_or_explained(text: Seq<char>, c: ConfigView, error: ConfigError)
    ensures
        accepted(text) == Some(c) <==> parsed(text) is Ok && config_in(parsed(text)->Ok_0) == Some(c)
            && config_fault(c) is None,
        accepted(text) is Some ==> !explains(error, text),
        explains(error, text) && parsed(text) is Err ==> error is Toml && error->Toml_0@ == parsed(
            text,
        )->Err_0,
        explains(error, text) && parsed(text) is Ok && config_in(parsed(text)->Ok_0) is None
            ==> error is Toml && error->Toml_0@ == fault_text(
            parsed(text)->Ok_0,
            config_checks(parsed(text)->Ok_0),
        ),
        parsed(text) is Ok && config_in(parsed(text)->Ok_0) == Some(c) && config_fault(c) is Some
            ==> (explains(error, text) <==> error == config_fault(c)->Some_0),
{
}

fn read_texts(v: Option<&toml::de::DeValue>) -> (r: Option<Vec<String>>)
    ensures
        r is Some == texts_in(held_at(v)) is Some,
        r is Some ==> texts(r->Some_0@) == texts_in(held_at(v))->Some_0,
{
    let elements = match v {
        Some(v) => match as_array(v) {
            Some(elements) => elements,
            None => {
                return None;
            },
        },
        None => {
            return None;
        },
    };
    let ghost opts = held_all(elements@).map_values(|x: Toml| x.text());
    let mut r: Vec<String> = Vec::new();
    let mut i: usize = 0;
    while i < elements.len()
        invariant
            i <= elements@.len(),
            r@.len() == i,
            opts == held_all(elements@).map_values(|x: Toml| x.text()),
            texts_in(held_at(v)) == every(opts),
            forall|j: int| 0 <= j < i ==> #[trigger] opts[j] == Some(r@[j]@),
        decreases elements@.len() - i,
    {
        assert(opts[i as int] == held(*elements@[i as int]).text());
        match as_str(elements[i]) {
            Some(s) => {
                r.push(s.to_owned());
            },
            None => {
                return None;
            },
        }
        i += 1;
    }
    assert(texts(r@) =~= opts.map_values(|o: Option<Seq<char>>| o->Some_0));
    Some(r)
}

fn read_optional_text(v: Option<&toml::de::DeValue>) -> (r: Option<Option<String>>)
    ensures
        r is Some == optional_text_in(held_at(v)) is Some,
        r is Some ==> text_at(r->Some_0) == optional_text_in(held_at(v))->Some_0,
{
    match v {
        None => Some(None),
        Some(v) => match as_str(v) {
            Some(s) => Some(Some(s.to_owned())),
            None => None,
        },
    }
}

fn read_optional_flag(v: Option<&toml::de::DeValue>) -> (r: Option<bool>)
    ensures
        r == optional_flag_in(held_at(v)),
{
    match v {
        None => Some(false),
        Some(v) => v.as_bool(),
    }
}

proof fn first_zero(gsizes: Seq<u32>, level: int)
    requires
        0 <= level < gsizes.len(),
        gsizes[level] == 0,
        forall|l: int| 0 <= l < level ==> #[trigger] gsizes[l] > 0,
    ensures
        ({
            let g = as_ints_u32(gsizes);
            &&& exists|l: int| 0 <= l < g.len() && #[trigger] g[l] == 0
            &&& level == choose|l: int|
                0 <= l < g.len() && #[trigger] g[l] == 0 && forall|k: int|
                    0 <= k < l ==> #[trigger] g[k] != 0
        }),
{
    let g = as_ints_u32(gsizes);
    assert(g[level] == 0);
    assert forall|k: int| 0 <= k < level implies #[trigger] g[k] != 0 by {
        assert(gsizes[k] > 0);
    }
    let other = choose|l: int|
        0 <= l < g.len() && #[trigger] g[l] == 0 && forall|k: int|
            0 <= k < l ==> #[trigger] g[k] != 0;
    if other < level {
        assert(g[other] != 0);
    } else if level < other {
        assert(g[level] != 0);
    }
}

impl NtkdConfig {
    /// What it says.
    pub closed spec fn view(&self) -> ConfigView {
        ConfigView {
            gsizes: as_ints_u32(self.gsizes@),
            nics: texts(self.nics@),
            port: self.port as int,
            andna_key_path: text_at(self.andna_key_path),
            node_key_path: text_at(self.node_key_path),
            require_auth: self.require_auth,
        }
    }

    /// The configuration in the file `path`, given what came of reading it.
    pub fn load(path: &str, read: Result<String, String>) -> (r: Result<NtkdConfig, ConfigError>)
        ensures
            match read {
                Err(reason) => match r {
                    Err(ConfigError::Io { path: p, source }) => p@ == path@ && source@ == reason@,
                    _ => false,
                },
                Ok(text) => match accepted(text@) {
                    Some(c) => r is Ok && r->Ok_0@ == c,
                    None => match r {
                        Err(ConfigError::Parse { path: p, source }) => p@ == path@ && explains(
                            *source,
                            text@,
                        ),
                        _ => false,
                    },
                },
            },
    {
        let text = match read {
            Ok(text) => text,
            Err(source) => {
                return Err(ConfigError::Io { path: path.to_owned(), source });
            },
        };
        match NtkdConfig::from_str(text.as_str()) {
            Ok(config) => Ok(config),
            Err(error) => Err(
                ConfigError::Parse { path: path.to_owned(), source: Box::new(error) },
            ),
        }
    }

    /// The configuration that a text holds: a TOML document with the right fields, whose g-node
    /// sizes make a topology, and that has a key where requests must be signed.
    pub fn from_str(text: &str) -> (r: Result<NtkdConfig, ConfigError>)
        ensures
            match accepted(text@) {
                Some(c) => r is Ok && r->Ok_0@ == c,
                None => r is Err && explains(r->Err_0, text@),
            },
    {
        match parse(text) {
            Ok(document) => NtkdConfig::from_document(&document),
            Err(reason) => Err(ConfigError::Toml(reason)),
        }
    }

    /// The configuration that a document holds: one with the right fields, whose g-node sizes make
    /// a topology, and that has a key where requests must be signed.
    pub fn from_document(document: &toml::de::DeValue) -> (r: Result<NtkdConfig, ConfigError>)
        ensures
            match config_of(held(*document)) {
                Some(c) => r is Ok && r->Ok_0@ == c,
                None => r is Err && is_at_fault(r->Err_0, held(*document)),
            },
    {
        let gsizes = read_u32s(field(document, "gsizes"));
        let nics = read_texts(field(document, "nics"));
        let port = read_integer(field(document, "port"), 0, 0xffff);
        let andna_key_path = read_optional_text(field(document, "andna_key_path"));
        let node_key_path = read_optional_text(field(document, "node_key_path"));
        let require_auth = read_optional_flag(field(document, "require_auth"));
        let mut checks: Vec<FieldCheck> = Vec::new();
        checks.push(FieldCheck { name: "gsizes", fits: gsizes.is_some(), required: true });
        checks.push(FieldCheck { name: "nics", fits: nics.is_some(), required: true });
        checks.push(FieldCheck { name: "port", fits: port.is_some(), required: true });
        checks.push(
            FieldCheck {
                name: "andna_key_path",
                fits: andna_key_path.is_some(),
                required: false,
            },
        );
        checks.push(
            FieldCheck { name: "node_key_path", fits: node_key_path.is_some(), required: false },
        );
        checks.push(
            FieldCheck { name: "require_auth", fits: require_auth.is_some(), required: false },
        );
        assert(check_views(checks@) =~= config_checks(held(*document)));
        let config = match (gsizes, nics, port, andna_key_path, node_key_path, require_auth) {
            (
                Some(gsizes),
                Some(nics),
                Some(port),
                Some(andna_key_path),
                Some(node_key_path),
                Some(require_auth),
            ) => NtkdConfig {
                gsizes,
                nics,
                port: port as u16,
                andna_key_path,
                node_key_path,
                require_auth,
            },
            _ => {
                return Err(ConfigError::Toml(find_fault(document, &checks)));
            },
        };
        match config.topology() {
            Ok(_) => {},
            Err(error) => {
                return Err(error);
            },
        }
        if config.require_auth && config.node_key_path.is_none() {
            return Err(ConfigError::AuthWithoutKey);
        }
        Ok(config)
    }

    /// The topology of the configured g-node sizes.
    pub fn topology(&self) -> (r: Result<Topology, ConfigError>)
        ensures
            r is Ok ==> as_ints_u32(r->Ok_0@) == self@.gsizes,
            r is Ok <==> self@.gsizes.len() > 0 && forall|l: int|
                0 <= l < self@.gsizes.len() ==> #[trigger] self@.gsizes[l] != 0,
            r is Err ==> config_fault(self@) == Some(r->Err_0),
    {
        match Topology::new(copy_numbers(&self.gsizes)) {
            Ok(topology) => {
                proof {
                    assert forall|l: int| 0 <= l < self@.gsizes.len() implies #[trigger] self@.gsizes[l]
                        != 0 by {
                        assert(self.gsizes@[l] > 0);
                    }
                }
                Ok(topology)
            },
            Err(error) => {
                proof {
                    match error {
                        TopologyError::Empty => {},
                        TopologyError::ZeroGsize { level } => {
                            first_zero(self.gsizes@, level as int);
                            assert(self@.gsizes[level as int] == 0);
                        },
                    }
                }
                Err(ConfigError::Topology(error))
            },
        }
    }

    /// The interfaces to use.
    pub fn nics(&self) -> (r: &Vec<String>)
        ensures
            texts(r@) == self@.nics,
    {
        &self.nics
    }

    /// The port.
    pub fn port(&self) -> (r: u16)
        ensures
            r == self@.port,
    {
        self.port
    }

    /// Where the key that owns hostnames is kept.
    pub fn andna_key_path(&self) -> (r: Option<&str>)
        ensures
            r is Some == self@.andna_key_path is Some,
            r is Some ==> r->Some_0@ == self@.andna_key_path->Some_0,
    {
        match &self.andna_key_path {
            Some(path) => Some(path.as_str()),
            None => None,
        }
    }

    /// Where the key that signs requests is kept.
    pub fn node_key_path(&self) -> (r: Option<&str>)
        ensures
            r is Some == self@.node_key_path is Some,
            r is Some ==> r->Some_0@ == self@.node_key_path->Some_0,
    {
        match &self.node_key_path {
            Some(path) => Some(path.as_str()),
            None => None,
        }
    }

    /// Whether requests must be signed.
    pub fn require_auth(&self) -> (r: bool)
        ensures
            r == self@.require_auth,
    {
        self.require_auth
    }
}

/// A configuration that demands signatures always names a key to sign with.
pub proof fn demanded_signatures_have_a_key(c: ConfigView)
    requires
        config_fault(c) is None,
        c.require_auth,
    ensures
        c.node_key_path is Some,
{
}

} // verus!
