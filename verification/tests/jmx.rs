use std::collections::BTreeMap;

use breathe::dimension::Target;
use breathe::jmx::{
    parse_jolokia_value, split_mbean_command, JmxCluster, JmxEnv, JmxError, JolokiaCurlEnv,
};
use breathe::layout::{LimitLayout, MetricSource, SsaPatch};
use breathe::provider::ProviderError;

/// Canned values by endpoint and attribute; every write is recorded.
#[derive(Default)]
struct MockJmxEnv {
    mbeans: BTreeMap<(String, String), u64>,
    writes: Vec<(String, String, u64)>,
}

impl MockJmxEnv {
    fn with(endpoint: &str, attribute: &str, value: u64) -> Self {
        let mut env = Self::default();
        env.mbeans.insert((endpoint.into(), attribute.into()), value);
        env
    }
    fn writes(&self) -> Vec<(String, String, u64)> {
        self.writes.clone()
    }
}

impl JmxEnv for MockJmxEnv {
    fn read_mbean(&self, endpoint: &str, attribute: &str) -> Result<u64, JmxError> {
        self.mbeans
            .get(&(endpoint.to_string(), attribute.to_string()))
            .copied()
            .ok_or_else(|| JmxError::Parse("no such MBean attribute".into()))
    }
    fn write_mbean(&mut self, endpoint: &str, attribute: &str, value: u64) -> Result<(), JmxError> {
        self.mbeans.insert((endpoint.to_string(), attribute.to_string()), value);
        self.writes.push((endpoint.to_string(), attribute.to_string(), value));
        Ok(())
    }
}

const JOLOKIA: &str = "http://app:8778/jolokia";

fn jvm_target() -> Target {
    Target {
        namespace: "default".into(),
        name: "payments".into(),
        kind: "Deployment".into(),
        api_version: "apps/v1".into(),
        container: None,
        pod_selector: None,
    }
}

fn hikari_layout() -> LimitLayout {
    LimitLayout::ApiCall { endpoint: JOLOKIA.into(), command: "HikariPool-1:maximumPoolSize".into() }
}

fn pair(a: &str, b: &str) -> (String, String) {
    (a.to_string(), b.to_string())
}

#[test]
fn splits_mbean_command_on_the_last_colon() {
    assert_eq!(
        split_mbean_command("HikariPool-1:maximumPoolSize").unwrap(),
        pair("HikariPool-1", "maximumPoolSize")
    );
    assert_eq!(
        split_mbean_command("Catalina:type=ThreadPool,name=http:maxThreads").unwrap(),
        pair("Catalina:type=ThreadPool,name=http", "maxThreads")
    );
    assert!(matches!(split_mbean_command("maximumPoolSize"), Err(JmxError::BadCommand(_))));
    assert!(matches!(split_mbean_command(":maxThreads"), Err(JmxError::BadCommand(_))));
    assert!(matches!(split_mbean_command("HikariPool-1:"), Err(JmxError::BadCommand(_))));
}

#[test]
fn parses_the_integer_value_out_of_a_jolokia_body() {
    assert_eq!(parse_jolokia_value(r#"{"request":{},"value":42,"status":200}"#).unwrap(), 42);
    assert_eq!(parse_jolokia_value(r#"{"value": 1024 ,"status":200}"#).unwrap(), 1024);
    assert!(matches!(parse_jolokia_value(r#"{"status":200}"#), Err(JmxError::Parse(_))));
    assert!(matches!(parse_jolokia_value(r#"{"value":"big"}"#), Err(JmxError::Parse(_))));
}

#[test]
fn builds_jolokia_curl_argv_without_a_shell() {
    let read = JolokiaCurlEnv::curl_argv("read", JOLOKIA, "HikariPool-1", "maximumPoolSize", None);
    assert_eq!(read, vec!["-sf", "-m", "5", "http://app:8778/jolokia/read/HikariPool-1/maximumPoolSize"]);
    let write = JolokiaCurlEnv::curl_argv(
        "write",
        "http://app:8778/jolokia/",
        "HikariPool-1",
        "maximumPoolSize",
        Some(20),
    );
    assert_eq!(write, vec!["-sf", "-m", "5", "http://app:8778/jolokia/write/HikariPool-1/maximumPoolSize/20"]);
}

#[test]
fn read_limit_reads_the_mbean_attribute_through_the_apicall_arm() {
    let env = MockJmxEnv::with(JOLOKIA, "HikariPool-1:maximumPoolSize", 10);
    let cluster = JmxCluster::shadow(env);
    let v = cluster.read_limit(&jvm_target(), &hikari_layout(), "cpu").unwrap();
    assert_eq!(v, 10, "read_limit returns the live MBean value via read_mbean");
    assert!(cluster
        .field_owners(&jvm_target(), &hikari_layout(), "cpu", "jmx.hikari.maxPoolSize")
        .unwrap()
        .is_empty());
}

#[test]
fn apply_round_trips_the_carve_live_then_reads_it_back() {
    let layout = LimitLayout::ApiCall {
        endpoint: JOLOKIA.into(),
        command: "com.example.cache:type=Caffeine,name=sessions:maximumSize".into(),
    };
    let env = MockJmxEnv::with(
        JOLOKIA,
        "com.example.cache:type=Caffeine,name=sessions:maximumSize",
        5000,
    );
    let mut cluster = JmxCluster::new(env, true);
    let patch = SsaPatch {
        target: jvm_target(),
        field_manager: "breathe/jmx".into(),
        layout: layout.clone(),
        resource: "cpu".into(),
        value: 8000,
    };
    cluster.apply(&patch).unwrap();
    assert_eq!(
        cluster.env().writes(),
        vec![(
            JOLOKIA.to_string(),
            "com.example.cache:type=Caffeine,name=sessions:maximumSize".to_string(),
            8000
        )]
    );
    assert_eq!(cluster.read_limit(&jvm_target(), &layout, "cpu").unwrap(), 8000);
}

#[test]
fn shadow_mode_decides_but_writes_no_mbean() {
    let layout = LimitLayout::ApiCall {
        endpoint: JOLOKIA.into(),
        command: "Catalina:type=ThreadPool,name=http:maxThreads".into(),
    };
    let env = MockJmxEnv::with(JOLOKIA, "Catalina:type=ThreadPool,name=http:maxThreads", 200);
    let mut cluster = JmxCluster::shadow(env);
    let patch = SsaPatch {
        target: jvm_target(),
        field_manager: "breathe/jmx".into(),
        layout,
        resource: "cpu".into(),
        value: 300,
    };
    cluster.apply(&patch).unwrap();
    assert!(cluster.env().writes().is_empty(), "shadow mode must not write any MBean");
}

#[test]
fn a_wrong_layout_is_a_typed_permanent_error_on_every_verb() {
    let mut cluster = JmxCluster::new(MockJmxEnv::default(), true);
    let wrong = LimitLayout::PodTemplate { container: None };
    let read_err = cluster.read_limit(&jvm_target(), &wrong, "cpu").unwrap_err();
    assert!(matches!(read_err, ProviderError::ApiPermanent(_)), "wrong layout on read_limit is permanent");
    let patch = SsaPatch {
        target: jvm_target(),
        field_manager: "breathe/jmx".into(),
        layout: wrong,
        resource: "cpu".into(),
        value: 1,
    };
    let apply_err = cluster.apply(&patch).unwrap_err();
    assert!(matches!(apply_err, ProviderError::ApiPermanent(_)), "wrong layout on apply is permanent");
    assert!(cluster.env().writes().is_empty(), "a refused apply touches no MBean");
}

#[test]
fn read_used_on_the_jmx_boundary_is_a_typed_error() {
    let cluster = JmxCluster::shadow(MockJmxEnv::default());
    let err = cluster
        .read_used(&MetricSource::PodMetricsMax {
            resource: "cpu".into(),
            pod_prefix: "payments".into(),
            selector: None,
        })
        .unwrap_err();
    assert!(matches!(err, ProviderError::ApiPermanent(_)));
}

#[test]
fn the_unlinked_real_env_reports_a_typed_gap_never_a_panic() {
    let env = JolokiaCurlEnv::default();
    let read = env.read_request(JOLOKIA, "HikariPool-1:maximumPoolSize").unwrap_err();
    assert!(matches!(read, JmxError::NotLinked(_)));
    assert!(matches!(read.into_provider(), ProviderError::ApiPermanent(_)));
    let write = env.write_request(JOLOKIA, "HikariPool-1:maximumPoolSize", 20).unwrap_err();
    assert!(matches!(write, JmxError::NotLinked(_)));
}

// ─────────────────────── further cases ───────────────────────

#[test]
fn a_linked_env_asks_for_the_bean() {
    let env = JolokiaCurlEnv::default().linked(true);
    assert_eq!(
        env.read_request(JOLOKIA, "a:b:c").unwrap(),
        JolokiaCurlEnv::curl_argv("read", JOLOKIA, "a:b", "c", None)
    );
    assert!(matches!(env.read_request(JOLOKIA, "plain"), Err(JmxError::BadCommand(_))));
}

#[test]
fn a_failed_call_keeps_its_code_and_words() {
    let env = JolokiaCurlEnv::default().linked(true);
    let argv: Vec<String> = vec!["-sf".into()];
    let e = env.finished_call(&argv, false, Some(22), "", "refused").unwrap_err();
    let JmxError::Command { code, stderr, .. } = &e else { panic!("{e:?}") };
    assert_eq!(*code, Some(22));
    assert_eq!(stderr, "refused");
    assert!(!e.message().is_empty());
}

#[test]
fn a_command_that_was_joined_splits_again() {
    for (bean, attribute) in [("a", "b"), ("x:y=z,w", "maxThreads"), ("é:è", "ß")] {
        let joined = format!("{bean}:{attribute}");
        assert_eq!(split_mbean_command(&joined).unwrap(), pair(bean, attribute));
    }
}

#[test]
fn bean_errors_reach_a_band_as_transient_or_permanent() {
    assert!(matches!(JmxError::Io("x".into()).into_provider(), ProviderError::ApiTransient(_)));
    assert!(matches!(
        JmxError::BadCommand("x".into()).into_provider(),
        ProviderError::ApiPermanent(_)
    ));
}
