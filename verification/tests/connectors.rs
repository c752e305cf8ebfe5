use ify_controller::connectors::{ConnectorKind, ConnectorRegistry};
use ify_controller::json::JsonValue;
use ify_controller::graph::{PortDataType, PortDirection};

const KINDS: [ConnectorKind; 10] = [
    ConnectorKind::HttpRequest,
    ConnectorKind::HttpWebhook,
    ConnectorKind::BlockchainRpc,
    ConnectorKind::BlockchainSign,
    ConnectorKind::DatabaseQuery,
    ConnectorKind::DatabaseWrite,
    ConnectorKind::MlPredict,
    ConnectorKind::MlTrain,
    ConnectorKind::TradingOrder,
    ConnectorKind::TradingMarketData,
];

#[test]
fn registry_contains_all_kinds() {
    let reg = ConnectorRegistry::new();
    for kind in KINDS {
        assert!(reg.get(kind).is_some(), "missing template for {kind:?}");
    }
}

#[test]
fn instantiate_http_request_node() {
    let reg = ConnectorRegistry::new();
    let node = reg.instantiate(ConnectorKind::HttpRequest, "My HTTP Call").unwrap();
    assert_eq!(node.kind, "http.request");
    assert_eq!(node.label, "My HTTP Call");
    assert!(matches!(node.parameters.get("method"), Some(JsonValue::Str(s)) if s == "GET"));
    assert!(node.ports.values().iter().any(|p| p.name == "response"));
    assert!(node.ports.values().iter().any(|p| p.name == "trigger"));
}

#[test]
fn instantiate_ml_predict_node() {
    let reg = ConnectorRegistry::new();
    let node = reg.instantiate(ConnectorKind::MlPredict, "Inference").unwrap();
    assert_eq!(node.kind, "ml.predict");
    let ports = node.ports.values();
    let feat_port = ports.iter().find(|p| p.name == "features").unwrap();
    assert!(feat_port.required);
}

#[test]
fn connector_kind_node_kind_strings_unique() {
    let strings: Vec<&str> = KINDS.iter().map(|k| k.node_kind()).collect();
    let unique: std::collections::HashSet<&&str> = strings.iter().collect();
    assert_eq!(strings.len(), unique.len(), "all node_kind strings must be unique");
}

#[test]
fn all_templates_have_at_least_one_port() {
    let reg = ConnectorRegistry::new();
    for t in reg.all() {
        assert!(!t.ports.is_empty(), "template {} has no ports", t.node_kind);
    }
    assert_eq!(reg.all().len(), 10);
}

#[test]
fn trading_order_template_has_its_catalogue_ports_and_params() {
    let reg = ConnectorRegistry::new();
    let t = reg.get(ConnectorKind::TradingOrder).unwrap();
    assert_eq!(t.description, "Submit a trading order (market, limit, or stop).");
    let names: Vec<&str> = t.ports.iter().map(|p| p.name.as_str()).collect();
    assert_eq!(names, vec!["signal", "order_id", "fill", "error"]);
    assert!(t.ports[0].required);
    assert!(matches!(t.ports[0].direction, PortDirection::In));
    assert!(matches!(t.ports[1].data_type, PortDataType::String));
    assert!(!t.ports[1].required);
    let params: Vec<(&str, bool)> = t.params.iter().map(|p| (p.name, p.required)).collect();
    assert_eq!(params, vec![("exchange_ref", true), ("symbol", true), ("order_type", false), ("paper_mode", false)]);
    assert!(matches!(t.params[3].default, Some(JsonValue::Bool(true))));
    assert!(matches!(&t.params[2].default, Some(JsonValue::Str(s)) if s == "market"));
}
