//! What is known of the service that events come from.

use vstd::prelude::*;
use vstd::slice::slice_subrange;

use crate::config::env;
use crate::config::ServiceConfig;
use crate::text::{self, chars_of, text_eq, text_of, trim};
use crate::text_map::{self, TextMap};

verus! {

/// What is known of the service that events come from.
#[derive(Debug)]
pub struct ResourceAttrs {
    /// `service.name`
    pub service_name: String,
    /// `service.version`
    pub service_version: String,
    /// `service.namespace`
    pub service_namespace: String,
    /// `service.instance.id`
    pub service_instance_id: String,
    /// `deployment.environment`
    pub deployment_environment: String,
    /// `host.name`
    pub host_name: String,
    /// `host.arch`
    pub host_arch: String,
    /// What else is known.
    pub extra: TextMap<String>,
}

/// What the attributes hold.
pub struct ResourceView {
    pub service_name: Seq<char>,
    pub service_version: Seq<char>,
    pub service_namespace: Seq<char>,
    pub service_instance_id: Seq<char>,
    pub deployment_environment: Seq<char>,
    pub host_name: Seq<char>,
    pub host_arch: Seq<char>,
    pub extra: Map<Seq<char>, Seq<char>>,
}

impl View for ResourceAttrs {
    type V = ResourceView;

    open spec fn view(&self) -> ResourceView {
        ResourceView {
            service_name: self.service_name@,
            service_version: self.service_version@,
            service_namespace: self.service_namespace@,
            service_instance_id: self.service_instance_id@,
            deployment_environment: self.deployment_environment@,
            host_name: self.host_name@,
            host_arch: self.host_arch@,
            extra: text_map::text_values(self.extra@),
        }
    }
}

/// Nothing is known.
pub open spec fn empty_resource() -> ResourceView {
    ResourceView {
        service_name: Seq::empty(),
        service_version: Seq::empty(),
        service_namespace: Seq::empty(),
        service_instance_id: Seq::empty(),
        deployment_environment: Seq::empty(),
        host_name: Seq::empty(),
        host_arch: Seq::empty(),
        extra: Map::empty(),
    }
}

impl Default for ResourceAttrs {
    fn default() -> (r: Self)
        ensures
            r@ == empty_resource(),
    {
        let extra: TextMap<String> = TextMap::new();
        proof {
            assert(text_map::text_values(extra@) =~= Map::<Seq<char>, Seq<char>>::empty());
        }
        ResourceAttrs {
            service_name: String::new(),
            service_version: String::new(),
            service_namespace: String::new(),
            service_instance_id: String::new(),
            deployment_environment: String::new(),
            host_name: String::new(),
            host_arch: String::new(),
            extra,
        }
    }
}

impl Clone for ResourceAttrs {
    fn clone(&self) -> (r: Self)
        ensures
            r@ == self@,
    {
        ResourceAttrs {
            service_name: self.service_name.clone(),
            service_version: self.service_version.clone(),
            service_namespace: self.service_namespace.clone(),
            service_instance_id: self.service_instance_id.clone(),
            deployment_environment: self.deployment_environment.clone(),
            host_name: self.host_name.clone(),
            host_arch: self.host_arch.clone(),
            extra: self.extra.clone(),
        }
    }
}

/// The map with `value` under `key`, where there is a value.
pub open spec fn with_known(
    m: Map<Seq<char>, Seq<char>>,
    key: Seq<char>,
    value: Seq<char>,
) -> Map<Seq<char>, Seq<char>> {
    if value.len() > 0 {
        m.insert(key, value)
    } else {
        m
    }
}

/// The attributes that are known, under their conventional names.
pub open spec fn semconv(r: ResourceView) -> Map<Seq<char>, Seq<char>> {
    let m1 = with_known(r.extra, "service.name"@, r.service_name);
    let m2 = with_known(m1, "service.version"@, r.service_version);
    let m3 = with_known(m2, "service.namespace"@, r.service_namespace);
    let m4 = with_known(m3, "service.instance.id"@, r.service_instance_id);
    let m5 = with_known(m4, "deployment.environment"@, r.deployment_environment);
    let m6 = with_known(m5, "host.name"@, r.host_name);
    with_known(m6, "host.arch"@, r.host_arch)
}

fn set_known(m: &mut TextMap<String>, key: &str, value: &String)
    ensures
        text_map::text_values(final(m)@) == with_known(
            text_map::text_values(old(m)@),
            key@,
            value@,
        ),
{
    if !value.as_str().is_empty() {
        m.set_text(key.to_string(), value.clone());
    }
}

impl ResourceAttrs {
    /// The attributes that are known, under their conventional names.
    #[must_use]
    pub fn to_semconv_map(&self) -> (r: TextMap<String>)
        ensures
            text_map::text_values(r@) == semconv(self@),
    {
        let mut m = self.extra.clone();
        set_known(&mut m, "service.name", &self.service_name);
        set_known(&mut m, "service.version", &self.service_version);
        set_known(&mut m, "service.namespace", &self.service_namespace);
        set_known(&mut m, "service.instance.id", &self.service_instance_id);
        set_known(&mut m, "deployment.environment", &self.deployment_environment);
        set_known(&mut m, "host.name", &self.host_name);
        set_known(&mut m, "host.arch", &self.host_arch);
        m
    }
}

// ---------------------------------------------------------------------------
// From the environment.
// ---------------------------------------------------------------------------
/// `s` cut at each comma.
pub open spec fn comma_pieces(s: Seq<char>) -> Seq<Seq<char>>
    decreases s.len(),
{
    match env::index_of(s, ',') {
        Some(n) => if 0 <= n < s.len() {
            seq![s.take(n)] + comma_pieces(s.skip(n + 1))
        } else {
            arbitrary()
        },
        None => seq![s],
    }
}

/// The attributes after one more pair: a conventional name goes to its place,
/// any other to the rest.
pub open spec fn with_attribute(r: ResourceView, key: Seq<char>, value: Seq<char>) -> ResourceView {
    if key == "service.name"@ {
        ResourceView { service_name: value, ..r }
    } else if key == "service.version"@ {
        ResourceView { service_version: value, ..r }
    } else if key == "service.namespace"@ {
        ResourceView { service_namespace: value, ..r }
    } else if key == "service.instance.id"@ {
        ResourceView { service_instance_id: value, ..r }
    } else if key == "deployment.environment"@ {
        ResourceView { deployment_environment: value, ..r }
    } else if key == "host.name"@ {
        ResourceView { host_name: value, ..r }
    } else if key == "host.arch"@ {
        ResourceView { host_arch: value, ..r }
    } else {
        ResourceView { extra: r.extra.insert(key, value), ..r }
    }
}

/// The attributes after one more piece of the list: a key and a value around
/// the first `=`. A piece without one says nothing.
pub open spec fn with_piece(r: ResourceView, piece: Seq<char>) -> ResourceView {
    let p = text::trimmed(piece);
    match env::index_of(p, '=') {
        Some(n) => with_attribute(r, text::trimmed(p.take(n)), text::trimmed(p.skip(n + 1))),
        None => r,
    }
}

/// The attributes after a list of pieces.
pub open spec fn with_attributes(r: ResourceView, list: Seq<Seq<char>>) -> ResourceView
    decreases list.len(),
{
    if list.len() == 0 {
        r
    } else {
        with_attributes(with_piece(r, list[0]), list.skip(1))
    }
}

/// What an architecture is called by convention.
pub open spec fn conventional_arch(arch: Seq<char>) -> Seq<char> {
    if arch == "x86_64"@ {
        "amd64"@
    } else if arch == "aarch64"@ {
        "arm64"@
    } else {
        arch
    }
}

/// What the environment of the process says.
pub struct EnvironmentView {
    pub service_name: Option<Seq<char>>,
    pub resource_attributes: Option<Seq<char>>,
    pub hostname: Option<Seq<char>>,
    pub arch: Seq<char>,
}

/// What the environment of the process says.
#[derive(Debug)]
pub struct Environment {
    /// `OTEL_SERVICE_NAME`
    pub service_name: Option<String>,
    /// `OTEL_RESOURCE_ATTRIBUTES`
    pub resource_attributes: Option<String>,
    /// `HOSTNAME`
    pub hostname: Option<String>,
    /// The architecture that the program was built for.
    pub arch: String,
}

impl View for Environment {
    type V = EnvironmentView;

    open spec fn view(&self) -> EnvironmentView {
        EnvironmentView {
            service_name: text::opt_text(self.service_name),
            resource_attributes: text::opt_text(self.resource_attributes),
            hostname: text::opt_text(self.hostname),
            arch: self.arch@,
        }
    }
}

/// The attributes of a service with the given identity, as the environment
/// adds to them: a service name that is not empty, then the list of
/// attributes, then the architecture and the host where they are not known.
pub open spec fn resource_from(
    service: Seq<char>,
    version: Seq<char>,
    instance: Seq<char>,
    e: EnvironmentView,
) -> ResourceView {
    let r0 = ResourceView {
        service_name: match e.service_name {
            Some(name) => if name.len() > 0 {
                name
            } else {
                service
            },
            None => service,
        },
        service_version: version,
        service_instance_id: instance,
        ..empty_resource()
    };
    let r1 = match e.resource_attributes {
        Some(list) => with_attributes(r0, comma_pieces(list)),
        None => r0,
    };
    let r2 = if r1.host_arch.len() == 0 {
        ResourceView { host_arch: conventional_arch(e.arch), ..r1 }
    } else {
        r1
    };
    match e.hostname {
        Some(host) => if r2.host_name.len() == 0 {
            ResourceView { host_name: host, ..r2 }
        } else {
            r2
        },
        None => r2,
    }
}

/// Takes one pair.
fn add_attribute(r: &mut ResourceAttrs, key: &[char], value: String)
    ensures
        final(r)@ == with_attribute(old(r)@, key@, value@),
{
    let name = text_of(key);
    let key = name.as_str();
    if text_eq(key, "service.name") {
        r.service_name = value;
    } else if text_eq(key, "service.version") {
        r.service_version = value;
    } else if text_eq(key, "service.namespace") {
        r.service_namespace = value;
    } else if text_eq(key, "service.instance.id") {
        r.service_instance_id = value;
    } else if text_eq(key, "deployment.environment") {
        r.deployment_environment = value;
    } else if text_eq(key, "host.name") {
        r.host_name = value;
    } else if text_eq(key, "host.arch") {
        r.host_arch = value;
    } else {
        r.extra.set_text(name, value);
    }
}

/// Takes one piece of the list.
fn add_piece(r: &mut ResourceAttrs, piece: &[char])
    ensures
        final(r)@ == with_piece(old(r)@, piece@),
{
    let p = trim(piece);
    if let Some(n) = env::find_char(p, '=') {
        let size: usize = p.len();
        let key = trim(slice_subrange(p, 0, n));
        let value = text_of(trim(slice_subrange(p, n + 1, size)));
        proof {
            assert(p@.subrange(0, n as int) =~= p@.take(n as int));
            assert(p@.subrange(n + 1, p@.len() as int) =~= p@.skip(n + 1));
        }
        add_attribute(r, key, value);
    }
}

/// The attributes of a service with the given identity, as the environment
/// adds to them.
pub fn build_resource_from_env(
    service: &str,
    version: &str,
    instance: &str,
    environment: &Environment,
) -> (r: ResourceAttrs)
    ensures
        r@ == resource_from(service@, version@, instance@, environment@),
{
    let mut r = ResourceAttrs::default();
    r.service_name = service.to_string();
    r.service_version = version.to_string();
    r.service_instance_id = instance.to_string();
    if let Some(name) = &environment.service_name {
        if !name.as_str().is_empty() {
            r.service_name = name.clone();
        }
    }
    let ghost r0 = r@;
    if let Some(list) = &environment.resource_attributes {
        let chars = chars_of(list.as_str());
        let mut rest: &[char] = chars.as_slice();
        let ghost goal = with_attributes(r0, comma_pieces(list@));
        loop
            invariant_except_break
                with_attributes(r@, comma_pieces(rest@)) == goal,
            ensures
                r@ == goal,
            decreases rest@.len(),
        {
            match env::find_char(rest, ',') {
                Some(n) => {
                    let ghost before = rest@;
                    let size: usize = rest.len();
                    let piece = slice_subrange(rest, 0, n);
                    rest = slice_subrange(rest, n + 1, size);
                    proof {
                        assert(piece@ =~= before.take(n as int));
                        assert(rest@ =~= before.skip(n + 1));
                        let list = seq![piece@] + comma_pieces(rest@);
                        assert(list.skip(1) =~= comma_pieces(rest@));
                        assert(list[0] == piece@);
                    }
                    add_piece(&mut r, piece);
                },
                None => {
                    proof {
                        let list = seq![rest@];
                        assert(list.skip(1) =~= Seq::<Seq<char>>::empty());
                        reveal_with_fuel(with_attributes, 2);
                    }
                    add_piece(&mut r, rest);
                    break;
                },
            }
        }
    }
    if r.host_arch.as_str().is_empty() {
        r.host_arch = if text_eq(environment.arch.as_str(), "x86_64") {
            "amd64".to_string()
        } else if text_eq(environment.arch.as_str(), "aarch64") {
            "arm64".to_string()
        } else {
            environment.arch.clone()
        };
    }
    if r.host_name.as_str().is_empty() {
        if let Some(host) = &environment.hostname {
            r.host_name = host.clone();
        }
    }
    r
}

// ---------------------------------------------------------------------------
// From the configuration.
// ---------------------------------------------------------------------------
/// `own`, or the other text in place of a missing one.
pub open spec fn text_or(own: Option<String>, other: Seq<char>) -> Seq<char> {
    match own {
        Some(s) => s@,
        None => other,
    }
}

/// The attributes after what the configuration says of the service: it
/// overrides the environment. Where it speaks of the name, the version or the
/// instance, these are those of the identity that was chosen.
pub open spec fn with_service(
    r: ResourceView,
    c: ServiceConfig,
    service: Seq<char>,
    version: Seq<char>,
    instance: Seq<char>,
) -> ResourceView {
    ResourceView {
        service_name: if c.name is Some {
            service
        } else {
            r.service_name
        },
        service_version: if c.version is Some {
            version
        } else {
            r.service_version
        },
        service_instance_id: if c.instance is Some {
            instance
        } else {
            r.service_instance_id
        },
        service_namespace: text_or(c.namespace, r.service_namespace),
        deployment_environment: text_or(c.environment, r.deployment_environment),
        extra: r.extra.union_prefer_right(text_map::text_values(c.extra@)),
        ..r
    }
}

/// Adds the entries of `more`, in place of those with the same keys.
fn add_all(m: &mut TextMap<String>, more: &TextMap<String>)
    ensures
        text_map::text_values(final(m)@) == text_map::text_values(
            old(m)@,
        ).union_prefer_right(text_map::text_values(more@)),
{
    let n: usize = more.len();
    let ghost start = text_map::text_values(m@);
    let ghost added = text_map::text_values(more@);
    let ghost pairs = more.pairs();
    let mut i: usize = 0;
    while i < n
        invariant
            i <= n,
            n == pairs.len(),
            pairs == more.pairs(),
            added == text_map::text_values(more@),
            text_map::entries_in_order(more@, pairs),
            forall|k: Seq<char>| #[trigger]
                text_map::text_values(m@).contains_key(k) ==> start.contains_key(k)
                    || added.contains_key(k),
            forall|k: Seq<char>| #[trigger]
                start.contains_key(k) ==> text_map::text_values(m@).contains_key(k) && (
                text_map::text_values(m@)[k] == start[k] || (added.contains_key(k)
                    && text_map::text_values(m@)[k] == added[k])),
            forall|k: Seq<char>| #[trigger]
                text_map::text_values(m@).contains_key(k) && !added.contains_key(k)
                    ==> text_map::text_values(m@)[k] == start[k],
            forall|j: int|
                0 <= j < i ==> text_map::text_values(m@).contains_pair(
                    (#[trigger] pairs[j]).0,
                    pairs[j].1@,
                ),
        decreases n - i,
    {
        let (key, value) = more.at(i);
        let ghost before = text_map::text_values(m@);
        m.set_text(key.clone(), value.clone());
        proof {
            let now = text_map::text_values(m@);
            assert(now == before.insert(key@, value@));
            assert(more@.contains_pair(key@, *value));
            assert(added.contains_key(key@) && added[key@] == value@);
            assert forall|j: int| 0 <= j < i + 1 implies now.contains_pair(
                (#[trigger] pairs[j]).0,
                pairs[j].1@,
            ) by {
                if j < i {
                    text_map::lemma_before_order(pairs[j].0, key@);
                    assert(text_map::text_before(pairs[j].0, pairs[i as int].0));
                }
            }
        }
        i = i + 1;
    }
    proof {
        let now = text_map::text_values(m@);
        assert forall|k: Seq<char>| #[trigger] added.contains_key(k) implies now.contains_pair(
            k,
            added[k],
        ) by {
            assert(more@.contains_key(k));
            let j = choose|j: int| 0 <= j < pairs.len() && (#[trigger] pairs[j]).0 == k;
            assert(more@.contains_pair(pairs[j].0, pairs[j].1));
        }
        assert(now =~= start.union_prefer_right(added));
    }
}

/// Takes what the configuration says of the service.
pub fn add_service(
    r: &mut ResourceAttrs,
    c: &ServiceConfig,
    service: &str,
    version: &str,
    instance: &str,
)
    ensures
        final(r)@ == with_service(old(r)@, *c, service@, version@, instance@),
{
    if c.name.is_some() {
        r.service_name = service.to_string();
    }
    if c.version.is_some() {
        r.service_version = version.to_string();
    }
    if c.instance.is_some() {
        r.service_instance_id = instance.to_string();
    }
    if let Some(s) = &c.namespace {
        r.service_namespace = s.clone();
    }
    if let Some(s) = &c.environment {
        r.deployment_environment = s.clone();
    }
    let mut extra = TextMap::new();
    std::mem::swap(&mut extra, &mut r.extra);
    add_all(&mut extra, &c.extra);
    r.extra = extra;
}

// ---------------------------------------------------------------------------
// What is known, and from where.
// ---------------------------------------------------------------------------
/// Whether an attribute has a place of its own.
pub open spec fn is_conventional(key: Seq<char>) -> bool {
    ||| key == "service.name"@
    ||| key == "service.version"@
    ||| key == "service.namespace"@
    ||| key == "service.instance.id"@
    ||| key == "deployment.environment"@
    ||| key == "host.name"@
    ||| key == "host.arch"@
}

proof fn lemma_names_differ()
    ensures
        "service.name"@.len() == 12,
        "service.version"@.len() == 15,
        "service.namespace"@.len() == 17,
        "service.instance.id"@.len() == 19,
        "deployment.environment"@.len() == 22,
        "host.name"@.len() == 9,
        "host.arch"@.len() == 9,
        "host.name"@[5] == 'n',
        "host.arch"@[5] == 'a',
{
    reveal_strlit("service.name");
    reveal_strlit("service.version");
    reveal_strlit("service.namespace");
    reveal_strlit("service.instance.id");
    reveal_strlit("deployment.environment");
    reveal_strlit("host.name");
    reveal_strlit("host.arch");
}

/// Each attribute that is known is listed under its conventional name. One that
/// is not known adds nothing, and what else is known is listed as it is.
pub proof fn law_what_is_known_is_listed(r: ResourceView, other: Seq<char>)
    ensures
        r.service_name.len() > 0 ==> semconv(r).contains_pair("service.name"@, r.service_name),
        r.service_version.len() > 0 ==> semconv(r).contains_pair(
            "service.version"@,
            r.service_version,
        ),
        r.service_namespace.len() > 0 ==> semconv(r).contains_pair(
            "service.namespace"@,
            r.service_namespace,
        ),
        r.service_instance_id.len() > 0 ==> semconv(r).contains_pair(
            "service.instance.id"@,
            r.service_instance_id,
        ),
        r.deployment_environment.len() > 0 ==> semconv(r).contains_pair(
            "deployment.environment"@,
            r.deployment_environment,
        ),
        r.host_name.len() > 0 ==> semconv(r).contains_pair("host.name"@, r.host_name),
        r.host_arch.len() > 0 ==> semconv(r).contains_pair("host.arch"@, r.host_arch),
        !is_conventional(other) ==> semconv(r).contains_key(other) == r.extra.contains_key(other)
            && semconv(r)[other] == r.extra[other],
        r.service_name.len() + r.service_version.len() + r.service_namespace.len()
            + r.service_instance_id.len() + r.deployment_environment.len() + r.host_name.len()
            + r.host_arch.len() == 0 ==> semconv(r) == r.extra,
{
    lemma_names_differ();
}

/// A conventional attribute goes to its place and any other to the rest; all
/// that is known otherwise stays.
pub proof fn law_attributes_go_to_their_places(r: ResourceView, key: Seq<char>, value: Seq<char>)
    ensures
        with_attribute(r, "service.name"@, value) == (ResourceView { service_name: value, ..r }),
        with_attribute(r, "service.version"@, value) == (ResourceView {
            service_version: value,
            ..r
        }),
        with_attribute(r, "service.namespace"@, value) == (ResourceView {
            service_namespace: value,
            ..r
        }),
        with_attribute(r, "service.instance.id"@, value) == (ResourceView {
            service_instance_id: value,
            ..r
        }),
        with_attribute(r, "deployment.environment"@, value) == (ResourceView {
            deployment_environment: value,
            ..r
        }),
        with_attribute(r, "host.name"@, value) == (ResourceView { host_name: value, ..r }),
        with_attribute(r, "host.arch"@, value) == (ResourceView { host_arch: value, ..r }),
        !is_conventional(key) ==> with_attribute(r, key, value) == (ResourceView {
            extra: r.extra.insert(key, value),
            ..r
        }),
{
    lemma_names_differ();
}

/// Whether a text is made of white space.
pub open spec fn is_blank(s: Seq<char>) -> bool {
    forall|i: int| 0 <= i < s.len() ==> text::is_space(#[trigger] s[i])
}

/// Whether a text neither begins nor ends with white space.
pub open spec fn is_tidy(s: Seq<char>) -> bool {
    s.len() > 0 && !text::is_space(s[0]) && !text::is_space(s.last())
}

/// A pair is read from what stands around its first `=`, without the white
/// space around the name and the value.
pub proof fn law_pairs_are_read(
    r: ResourceView,
    a: Seq<char>,
    key: Seq<char>,
    b: Seq<char>,
    c: Seq<char>,
    value: Seq<char>,
    d: Seq<char>,
)
    requires
        is_blank(a),
        is_blank(b),
        is_blank(c),
        is_blank(d),
        is_tidy(key),
        is_tidy(value),
        env::lacks(key, '='),
    ensures
        with_piece(r, a + (key + b + "="@ + c + value) + d) == with_attribute(r, key, value),
{
    reveal_strlit("=");
    let core = key + b + "="@ + c + value;
    let piece = a + core + d;
    assert(core[0] == key[0]);
    assert(core.last() == value.last());
    text::law_white_space_around_is_taken(a, core, d);
    let n = (key.len() + b.len()) as int;
    assert forall|j: int| 0 <= j < n implies #[trigger] core[j] != '=' by {
        if j < key.len() {
            assert(core[j] == key[j]);
        } else {
            assert(core[j] == b[j - key.len()]);
        }
    }
    assert(core[n] == '=');
    env::law_the_first_one_is_found(core, '=', n);
    let none = Seq::<char>::empty();
    assert(core.take(n) =~= none + key + b);
    assert(core.skip(n + 1) =~= c + value + none);
    text::law_white_space_around_is_taken(none, key, b);
    text::law_white_space_around_is_taken(c, value, none);
}

/// A piece without `=` says nothing.
pub proof fn law_a_piece_without_a_value_says_nothing(r: ResourceView, piece: Seq<char>)
    requires
        env::lacks(text::trimmed(piece), '='),
    ensures
        with_piece(r, piece) == r,
{
    let p = text::trimmed(piece);
    env::law_the_first_one_is_found(p, '=', p.len() as int);
}

/// A list is cut at each of its commas.
pub proof fn law_commas_part_a_list(front: Seq<char>, rest: Seq<char>)
    requires
        env::lacks(front, ','),
    ensures
        comma_pieces(front) == seq![front],
        comma_pieces(front + ","@ + rest) == seq![front] + comma_pieces(rest),
{
    reveal_strlit(",");
    env::law_the_first_one_is_found(front, ',', front.len() as int);
    let s = front + ","@ + rest;
    let n = front.len() as int;
    assert forall|j: int| 0 <= j < n implies #[trigger] s[j] != ',' by {
        assert(s[j] == front[j]);
    }
    assert(s[n] == ',');
    env::law_the_first_one_is_found(s, ',', n);
    assert(s.take(n) =~= front);
    assert(s.skip(n + 1) =~= rest);
}

/// A list is taken from its front to its end, so that of two pairs with the
/// same name the later one counts.
pub proof fn law_later_pairs_count(r: ResourceView, list: Seq<Seq<char>>, piece: Seq<char>)
    ensures
        with_attributes(r, list.push(piece)) == with_piece(with_attributes(r, list), piece),
    decreases list.len(),
{
    let all = list.push(piece);
    if list.len() == 0 {
        assert(all.skip(1) =~= Seq::<Seq<char>>::empty());
        reveal_with_fuel(with_attributes, 2);
    } else {
        assert(all.skip(1) =~= list.skip(1).push(piece));
        law_later_pairs_count(with_piece(r, list[0]), list.skip(1), piece);
    }
}

/// The name of the service is that of the environment where there is one. The
/// list of attributes goes before that, and the host and its architecture are
/// filled in only where the list did not say them.
pub proof fn law_the_environment_adds_to_the_identity(
    service: Seq<char>,
    version: Seq<char>,
    instance: Seq<char>,
    e: EnvironmentView,
    name: Seq<char>,
)
    requires
        name == (if e.service_name matches Some(n) && n.len() > 0 {
            e.service_name->Some_0
        } else {
            service
        }),
    ensures
        ({
            let own = ResourceView {
                service_name: name,
                service_version: version,
                service_namespace: Seq::empty(),
                service_instance_id: instance,
                deployment_environment: Seq::empty(),
                host_name: Seq::empty(),
                host_arch: Seq::empty(),
                extra: Map::empty(),
            };
            let said = match e.resource_attributes {
                Some(list) => with_attributes(own, comma_pieces(list)),
                None => own,
            };
            let r = resource_from(service, version, instance, e);
            &&& r.service_name == said.service_name
            &&& r.service_version == said.service_version
            &&& r.service_namespace == said.service_namespace
            &&& r.service_instance_id == said.service_instance_id
            &&& r.deployment_environment == said.deployment_environment
            &&& r.extra == said.extra
            &&& said.host_arch.len() > 0 ==> r.host_arch == said.host_arch
            &&& said.host_arch.len() == 0 ==> r.host_arch == conventional_arch(e.arch)
            &&& said.host_name.len() > 0 ==> r.host_name == said.host_name
            &&& said.host_name.len() == 0 ==> (e.hostname matches Some(h) ==> r.host_name == h)
            &&& e.hostname is None ==> r.host_name == said.host_name
        }),
{
    assert(empty_resource().extra =~= Map::<Seq<char>, Seq<char>>::empty());
}

/// Two architectures have other names by convention; every other keeps its own.
pub proof fn law_two_architectures_have_other_names(arch: Seq<char>)
    ensures
        conventional_arch("x86_64"@) == "amd64"@,
        conventional_arch("aarch64"@) == "arm64"@,
        arch != "x86_64"@ && arch != "aarch64"@ ==> conventional_arch(arch) == arch,
{
    reveal_strlit("x86_64");
    reveal_strlit("aarch64");
    assert("x86_64"@.len() != "aarch64"@.len());
}

/// What the configuration says goes before what was known; of what it does not
/// speak all stays.
pub proof fn law_the_configuration_goes_first(
    r: ResourceView,
    c: ServiceConfig,
    service: Seq<char>,
    version: Seq<char>,
    instance: Seq<char>,
    key: Seq<char>,
)
    ensures
        ({
            let said = text_map::text_values(c.extra@);
            let now = with_service(r, c, service, version, instance);
            &&& c.name is Some ==> now.service_name == service
            &&& c.name is None ==> now.service_name == r.service_name
            &&& c.version is Some ==> now.service_version == version
            &&& c.version is None ==> now.service_version == r.service_version
            &&& c.instance is Some ==> now.service_instance_id == instance
            &&& c.instance is None ==> now.service_instance_id == r.service_instance_id
            &&& c.namespace matches Some(s) ==> now.service_namespace == s@
            &&& c.namespace is None ==> now.service_namespace == r.service_namespace
            &&& c.environment matches Some(s) ==> now.deployment_environment == s@
            &&& c.environment is None ==> now.deployment_environment == r.deployment_environment
            &&& now.host_name == r.host_name
            &&& now.host_arch == r.host_arch
            &&& said.contains_key(key) ==> now.extra.contains_pair(key, said[key])
            &&& !said.contains_key(key) ==> now.extra.contains_key(key) == r.extra.contains_key(key)
            &&& !said.contains_key(key) && r.extra.contains_key(key) ==> now.extra[key]
                == r.extra[key]
        }),
{
}

} // verus!
