use obs_core::callsite::{Interest, ObsCallsite};
use obs_core::filter::{referenced_label_keys, Filter, FilterParseError};
use obs_core::{ObsEnvelope, Severity};

#[test]
fn test_parse_default_level() {
    let f: Filter = "warn".parse().unwrap();
    assert_eq!(f.default_level(), Severity::Warn);
}

#[test]
fn test_parse_target_level() {
    let f: Filter = "info,myapp::auth=debug".parse().unwrap();
    assert_eq!(f.default_level(), Severity::Info);
    let static_count = f.statics().iter().count();
    assert_eq!(static_count, 1);
}

#[test]
fn test_dynamic_directive() {
    let f: Filter = "myapp.v1.ObsRequestCompleted[route=admin]=warn".parse().unwrap();
    let dynamic_count = f.dynamics().iter().count();
    assert_eq!(dynamic_count, 1);
}

#[test]
fn test_off_directive_vetoes_callsite_above_floor() {
    let site = ObsCallsite::new("myapp.v1.ObsNoisy", Severity::Warn, "my_module::auth", "lib.rs", 1);
    let f: Filter = "info,my_module=off".parse().unwrap();
    assert_eq!(f.callsite_interest(&site), Interest::Never);
}

#[test]
fn test_off_directive_targets_full_name() {
    let site = ObsCallsite::new("myapp.v1.ObsNoisyFn", Severity::Warn, "myapp::handler", "lib.rs", 1);
    let f: Filter = "info,myapp.v1.ObsNoisyFn=off".parse().unwrap();
    assert_eq!(f.callsite_interest(&site), Interest::Never);
}

#[test]
fn test_global_off_blocks_everything() {
    let site = ObsCallsite::new("myapp.v1.ObsXyz", Severity::Error, "myapp", "lib.rs", 1);
    let f: Filter = "off".parse().unwrap();
    assert_eq!(f.callsite_interest(&site), Interest::Never);
}

#[test]
fn test_winnow_parses_compound_directive() {
    let f: Filter = "myapp.v1.ObsRequestCompleted[route=admin]=warn".parse().unwrap();
    let dyn_count = f.dynamics().iter().count();
    assert_eq!(dyn_count, 1);
}

#[test]
fn test_winnow_accepts_multiple_field_clauses() {
    let f: Filter = "myapp.v1.ObsX[route=admin,tenant=acme]=warn".parse().unwrap();
    let dynamic = f.dynamics().iter().next().expect("one dynamic");
    assert_eq!(dynamic.fields.len(), 2);
    assert_eq!(dynamic.fields[0].0, "route");
    assert_eq!(dynamic.fields[0].1, "admin");
    assert_eq!(dynamic.fields[1].0, "tenant");
    assert_eq!(dynamic.fields[1].1, "acme");
}

#[test]
fn test_winnow_accepts_quoted_values_with_commas() {
    let f: Filter = r#"myapp.v1.ObsX[route="/users/:id"]=warn"#.parse().unwrap();
    let dynamic = f.dynamics().iter().next().expect("one dynamic");
    assert_eq!(dynamic.fields[0].0, "route");
    assert_eq!(dynamic.fields[0].1, "/users/:id");
}

#[test]
fn quoted_values_may_hold_commas() {
    let f: Filter = r#"a.B[k="x,y"]=warn,info"#.parse().unwrap();
    assert_eq!(f.dynamics()[0].fields[0].1, "x,y");
    assert_eq!(f.default_level(), Severity::Info);
}

#[test]
fn test_winnow_accepts_whitespace_between_directives() {
    let f: Filter = " info , my_module = debug ".parse().unwrap();
    assert_eq!(f.default_level(), Severity::Info);
    let static_count = f.statics().iter().count();
    assert_eq!(static_count, 1);
}

#[test]
fn test_winnow_rejects_malformed_directive() {
    let err = Filter::parse("info,myapp::auth=BOGUS").unwrap_err();
    assert!(matches!(err, FilterParseError::Malformed(_)));
}

#[test]
fn test_winnow_rejects_unclosed_bracket() {
    let err = Filter::parse("myapp[route=admin=info").unwrap_err();
    assert!(matches!(err, FilterParseError::Malformed(_)));
}

#[test]
fn test_winnow_target_off_inside_directive_list() {
    let f: Filter = "info,my_module=off,other=debug".parse().unwrap();
    let static_count = f.statics().iter().count();
    assert_eq!(static_count, 2);
}

#[test]
fn test_winnow_allows_dotted_target_with_dashes() {
    let f: Filter = "info,my-crate.module=warn".parse().unwrap();
    assert_eq!(f.statics().iter().count(), 1);
}

#[test]
fn test_event_allowed_label_match() {
    let f: Filter = "info,myapp.v1.ObsRequestCompleted[route=admin]=trace".parse().unwrap();
    let mut env = ObsEnvelope {
        full_name: "myapp.v1.ObsRequestCompleted".to_string(),
        ..Default::default()
    };
    env.labels.insert("route".to_string(), "admin".to_string());
    assert!(f.event_allowed(&env, Severity::Trace));
    env.labels.insert("route".to_string(), "users".to_string());
    assert!(!f.event_allowed(&env, Severity::Trace));
}

#[test]
fn the_directive_that_cannot_be_read_is_reported() {
    let err = Filter::parse("info, a=b=c").unwrap_err();
    assert_eq!(err.message(), "malformed filter directive: a=b=c\n   ^\n");
    assert!(Filter::parse("=info").is_err());
    let f = Filter::parse("my/app@2=debug,x[ user id = a\"b ]=warn").unwrap();
    assert_eq!(f.statics()[0].target.as_deref(), Some("my/app@2"));
    let clauses = vec![("user id".to_string(), "a\"b".to_string())];
    assert_eq!(f.dynamics()[0].fields, clauses);
    assert!(Filter::parse("").is_ok());
}

fn said_of(s: &str) -> String {
    let FilterParseError::Malformed(said) = Filter::new().add_directive(s).unwrap_err();
    said
}

#[test]
fn faults_are_pointed_at() {
    // Behind a word that is no level.
    assert_eq!(said_of("myapp::auth=BOGUS"), "myapp::auth=BOGUS\n                 ^\n");
    // At a block that does not close, and at a level that is missing.
    assert_eq!(said_of("myapp[route=admin=info"), "myapp[route=admin=info\n     ^\n");
    assert_eq!(said_of("myapp="), "myapp=\n     ^\n");
    // At what a bare level leaves over.
    assert_eq!(said_of(" info  more "), "info  more\n      ^\n");
    // At the front where nothing is named.
    assert_eq!(said_of("=info"), "=info\n^\n");
    assert_eq!(said_of(""), "\n^\n");
    // The caret is as far in as there are bytes before it.
    assert_eq!(said_of("\u{e9}=x"), "\u{e9}=x\n    ^\n");
    // A directive of many lines is shown by the line of the fault.
    assert_eq!(
        said_of("a=\nb x"),
        "parse error at line 2, column 2\n  |\n2 | b x\n  |  ^\n"
    );
}

#[test]
fn the_longest_target_decides() {
    let f: Filter = "info,app=error,app::db=trace".parse().unwrap();
    let site = |module, sev| ObsCallsite::new("x.v1.E", sev, module, "f", 1);
    assert_eq!(f.callsite_interest(&site("app::db::pool", Severity::Trace)), Interest::Always);
    assert_eq!(f.callsite_interest(&site("app::web", Severity::Warn)), Interest::Never);
    assert_eq!(f.callsite_interest(&site("application", Severity::Info)), Interest::Always);
}

#[test]
fn directives_can_be_added() {
    let mut f = Filter::default();
    assert_eq!(f.default_level(), Severity::Info);
    f.add_directive("app=off").unwrap();
    assert!(f.add_directive("app=").is_err());
    assert_eq!(f.statics().len(), 1);
    let mut env = ObsEnvelope { full_name: "app".to_string(), ..Default::default() };
    assert!(!f.event_allowed(&env, Severity::Fatal));
    env.full_name = "other".to_string();
    assert!(f.event_allowed(&env, Severity::Info));
    assert!(!f.event_allowed(&env, Severity::Debug));
}

#[test]
fn label_keys_are_listed_with_their_targets() {
    let f: Filter = "a.X[k=1,m=2]=info,b.Y[k=3]=warn,[m=4]=error".parse().unwrap();
    let keys = referenced_label_keys(&f);
    assert_eq!(keys.get("k").unwrap(), &vec!["a.X".to_string(), "b.Y".to_string()]);
    assert_eq!(keys.get("m").unwrap(), &vec!["a.X".to_string(), String::new()]);
    assert_eq!(keys.len(), 2);
}

#[test]
fn a_filter_is_read_from_text_as_it_is_parsed() {
    let f: Filter = "warn,a.b=off".parse().unwrap();
    assert_eq!(f.default_level(), Severity::Warn);
    assert_eq!(f.statics().len(), 1);
    assert!(f.statics()[0].off);
    let err = "warn,a=x".parse::<Filter>().unwrap_err();
    assert_eq!(err.message(), "malformed filter directive: a=x\n   ^\n");
}

#[test]
fn a_copy_of_a_filter_decides_alike() {
    let f: Filter = "warn,a.b=off,x.v1.E[k=v]=trace".parse().unwrap();
    let g = f.clone();
    assert_eq!(g.default_level(), Severity::Warn);
    assert_eq!(g.statics()[0].target.as_deref(), Some("a.b"));
    assert!(g.statics()[0].off);
    assert_eq!(g.dynamics()[0].fields, f.dynamics()[0].fields);
    assert_eq!(g.dynamics()[0].level, Severity::Trace);
}
