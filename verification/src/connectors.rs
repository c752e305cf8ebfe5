//! Built-in workflow connector templates: typed ports and default
//! parameters for HTTP, blockchain, database, ML and trading nodes, and a
//! registry that instantiates graph nodes from them.

use vstd::prelude::*;
use crate::graph::{GraphNode, PortDataType, PortDef, PortDirection, has_port_named};
use crate::json::{JsonModel, JsonValue};

verus! {

/// The category of a workflow connector.
#[derive(Clone, Copy, Debug, PartialEq, Eq, Structural, Hash)]
pub enum ConnectorKind {
    /// HTTP request.
    HttpRequest,
    /// Incoming HTTP webhook.
    HttpWebhook,
    /// Blockchain JSON-RPC call.
    BlockchainRpc,
    /// Blockchain transaction signing and submission.
    BlockchainSign,
    /// Database read query.
    DatabaseQuery,
    /// Database write.
    DatabaseWrite,
    /// ML inference.
    MlPredict,
    /// ML training job.
    MlTrain,
    /// Trading order submission.
    TradingOrder,
    /// Market data ingestion.
    TradingMarketData,
}

/// Every connector kind, in catalogue order.
pub open spec fn connector_kinds() -> Seq<ConnectorKind> {
    seq![ConnectorKind::HttpRequest, ConnectorKind::HttpWebhook, ConnectorKind::BlockchainRpc, ConnectorKind::BlockchainSign, ConnectorKind::DatabaseQuery, ConnectorKind::DatabaseWrite, ConnectorKind::MlPredict, ConnectorKind::MlTrain, ConnectorKind::TradingOrder, ConnectorKind::TradingMarketData]
}

impl ConnectorKind {
    /// The canonical node kind text.
    pub open spec fn spec_node_kind(self) -> Seq<char> {
        match self {
            ConnectorKind::HttpRequest => "http.request"@,
            ConnectorKind::HttpWebhook => "http.webhook"@,
            ConnectorKind::BlockchainRpc => "blockchain.rpc"@,
            ConnectorKind::BlockchainSign => "blockchain.sign"@,
            ConnectorKind::DatabaseQuery => "db.query"@,
            ConnectorKind::DatabaseWrite => "db.write"@,
            ConnectorKind::MlPredict => "ml.predict"@,
            ConnectorKind::MlTrain => "ml.train"@,
            ConnectorKind::TradingOrder => "trading.order"@,
            ConnectorKind::TradingMarketData => "trading.market_data"@,
        }
    }

    /// The display name.
    pub open spec fn spec_display_name(self) -> Seq<char> {
        match self {
            ConnectorKind::HttpRequest => "HTTP Request"@,
            ConnectorKind::HttpWebhook => "HTTP Webhook"@,
            ConnectorKind::BlockchainRpc => "Blockchain RPC"@,
            ConnectorKind::BlockchainSign => "Blockchain Sign & Submit"@,
            ConnectorKind::DatabaseQuery => "Database Query"@,
            ConnectorKind::DatabaseWrite => "Database Write"@,
            ConnectorKind::MlPredict => "ML Predict"@,
            ConnectorKind::MlTrain => "ML Train"@,
            ConnectorKind::TradingOrder => "Trading Order"@,
            ConnectorKind::TradingMarketData => "Market Data"@,
        }
    }

    /// The canonical node kind text used as a graph node's kind.
    pub fn node_kind(self) -> (r: &'static str)
        ensures
            r@ == self.spec_node_kind(),
    {
        match self {
            ConnectorKind::HttpRequest => "http.request",
            ConnectorKind::HttpWebhook => "http.webhook",
            ConnectorKind::BlockchainRpc => "blockchain.rpc",
            ConnectorKind::BlockchainSign => "blockchain.sign",
            ConnectorKind::DatabaseQuery => "db.query",
            ConnectorKind::DatabaseWrite => "db.write",
            ConnectorKind::MlPredict => "ml.predict",
            ConnectorKind::MlTrain => "ml.train",
            ConnectorKind::TradingOrder => "trading.order",
            ConnectorKind::TradingMarketData => "trading.market_data",
        }
    }

    /// The display name.
    pub fn display_name(self) -> (r: &'static str)
        ensures
            r@ == self.spec_display_name(),
    {
        match self {
            ConnectorKind::HttpRequest => "HTTP Request",
            ConnectorKind::HttpWebhook => "HTTP Webhook",
            ConnectorKind::BlockchainRpc => "Blockchain RPC",
            ConnectorKind::BlockchainSign => "Blockchain Sign & Submit",
            ConnectorKind::DatabaseQuery => "Database Query",
            ConnectorKind::DatabaseWrite => "Database Write",
            ConnectorKind::MlPredict => "ML Predict",
            ConnectorKind::MlTrain => "ML Train",
            ConnectorKind::TradingOrder => "Trading Order",
            ConnectorKind::TradingMarketData => "Market Data",
        }
    }
}

/// A default parameter of a connector template.
#[derive(Debug)]
pub struct ConnectorParam {
    /// Parameter name (a key of the node's parameters).
    pub name: &'static str,
    /// Description.
    pub description: &'static str,
    /// Whether it must be given before execution.
    pub required: bool,
    /// Default value; none when the user must supply one.
    pub default: Option<JsonValue>,
}

impl Clone for ConnectorParam {
    fn clone(&self) -> (r: Self)
        ensures
            r == *self,
    {
        ConnectorParam {
            name: self.name,
            description: self.description,
            required: self.required,
            default: match &self.default {
                Some(v) => Some(v.clone()),
                None => None,
            },
        }
    }
}

impl ConnectorParam {
    /// A required parameter without default.
    fn required(name: &'static str, desc: &'static str) -> (r: Self)
        ensures
            r == (ConnectorParam { name, description: desc, required: true, default: None }),
    {
        ConnectorParam { name, description: desc, required: true, default: None }
    }

    /// An optional parameter with a default.
    fn optional(name: &'static str, desc: &'static str, default: JsonValue) -> (r: Self)
        ensures
            r == (ConnectorParam { name, description: desc, required: false, default: Some(default) }),
    {
        ConnectorParam { name, description: desc, required: false, default: Some(default) }
    }
}

/// The ports a node gets from adding `ports` in order, a port whose name is
/// taken already being skipped.
pub open spec fn ports_added(start: Map<u128, PortDef>, ports: Seq<PortDef>) -> Map<u128, PortDef>
    decreases ports.len(),
{
    if ports.len() == 0 {
        start
    } else {
        let prev = ports_added(start, ports.drop_last());
        let p = ports.last();
        if has_port_named(prev, p.name@) { prev } else { prev.insert(p.id, p) }
    }
}

/// The parameters a node gets from the defaults of `params`, in order.
pub open spec fn defaults_added(start: Map<Seq<char>, JsonValue>, params: Seq<ConnectorParam>) -> Map<Seq<char>, JsonValue>
    decreases params.len(),
{
    if params.len() == 0 {
        start
    } else {
        let prev = defaults_added(start, params.drop_last());
        let p = params.last();
        match p.default {
            Some(v) => prev.insert(p.name@, v),
            None => prev,
        }
    }
}

/// A port as a template fixes it: name, direction, data type, whether
/// required, description.
pub type PortShape = (Seq<char>, PortDirection, PortDataType, bool, Seq<char>);

/// The shape of a port.
pub open spec fn port_shape(p: PortDef) -> PortShape {
    (p.name@, p.direction, p.data_type, p.required, p.description@)
}

/// A parameter as a template fixes it: name, description, whether
/// required, default.
pub type ParamShape = (Seq<char>, Seq<char>, bool, Option<JsonModel>);

/// The shape of a parameter.
pub open spec fn param_shape(p: ConnectorParam) -> ParamShape {
    (p.name@, p.description@, p.required, match p.default {
        Some(v) => Some(v.model()),
        None => None,
    })
}

/// The shapes of ports, in order.
pub open spec fn port_shapes(s: Seq<PortDef>) -> Seq<PortShape> {
    s.map_values(|p: PortDef| port_shape(p))
}

/// The shapes of parameters, in order.
pub open spec fn param_shapes(s: Seq<ConnectorParam>) -> Seq<ParamShape> {
    s.map_values(|p: ConnectorParam| param_shape(p))
}

impl ConnectorKind {
    /// What the connector does.
    pub open spec fn spec_description(self) -> Seq<char> {
        match self {
            ConnectorKind::HttpRequest => "Send an HTTP request and receive the response."@,
            ConnectorKind::HttpWebhook => "Receive incoming HTTP webhook events."@,
            ConnectorKind::BlockchainRpc => "Execute a JSON-RPC call against a blockchain node."@,
            ConnectorKind::BlockchainSign => "Sign and submit a transaction to a blockchain."@,
            ConnectorKind::DatabaseQuery => "Execute a read query against a database."@,
            ConnectorKind::DatabaseWrite => "Execute a write (insert / update / delete) against a database."@,
            ConnectorKind::MlPredict => "Run inference against a registered ML model."@,
            ConnectorKind::MlTrain => "Submit a training job for an ML model."@,
            ConnectorKind::TradingOrder => "Submit a trading order (market, limit, or stop)."@,
            ConnectorKind::TradingMarketData => "Ingest and normalise market data (OHLCV, tick, order book)."@,
        }
    }

    /// The ports of the connector's template, in order.
    pub open spec fn spec_ports(self) -> Seq<PortShape> {
        match self {
            ConnectorKind::HttpRequest => seq![
                ("trigger"@, PortDirection::In, PortDataType::Any, false, "Execution trigger"@),
                ("body"@, PortDirection::In, PortDataType::Json, false, "Optional request body"@),
                ("response"@, PortDirection::Out, PortDataType::Json, false, "Parsed JSON response"@),
                ("status_code"@, PortDirection::Out, PortDataType::Number, false, "HTTP response status code"@),
                ("error"@, PortDirection::Out, PortDataType::String, false, "Error message if request failed"@),
            ],
            ConnectorKind::HttpWebhook => seq![
                ("payload"@, PortDirection::Out, PortDataType::Json, false, "Incoming webhook payload"@),
                ("headers"@, PortDirection::Out, PortDataType::Json, false, "Incoming HTTP headers"@),
                ("method"@, PortDirection::Out, PortDataType::String, false, "HTTP method of the incoming request"@),
            ],
            ConnectorKind::BlockchainRpc => seq![
                ("trigger"@, PortDirection::In, PortDataType::Any, false, "Execution trigger"@),
                ("params"@, PortDirection::In, PortDataType::Array, false, "RPC method parameters array"@),
                ("result"@, PortDirection::Out, PortDataType::Json, false, "RPC result value"@),
                ("error"@, PortDirection::Out, PortDataType::String, false, "RPC error message, if any"@),
            ],
            ConnectorKind::BlockchainSign => seq![
                ("tx_data"@, PortDirection::In, PortDataType::Json, true, "Unsigned transaction object"@),
                ("tx_hash"@, PortDirection::Out, PortDataType::String, false, "Submitted transaction hash"@),
                ("receipt"@, PortDirection::Out, PortDataType::Json, false, "Transaction receipt (after confirmation)"@),
                ("error"@, PortDirection::Out, PortDataType::String, false, "Error message if submission failed"@),
            ],
            ConnectorKind::DatabaseQuery => seq![
                ("trigger"@, PortDirection::In, PortDataType::Any, false, "Execution trigger"@),
                ("bindings"@, PortDirection::In, PortDataType::Json, false, "Query parameter bindings"@),
                ("rows"@, PortDirection::Out, PortDataType::Array, false, "Result rows as a JSON array"@),
                ("row_count"@, PortDirection::Out, PortDataType::Number, false, "Number of rows returned"@),
                ("error"@, PortDirection::Out, PortDataType::String, false, "Error message if query failed"@),
            ],
            ConnectorKind::DatabaseWrite => seq![
                ("trigger"@, PortDirection::In, PortDataType::Any, false, "Execution trigger"@),
                ("data"@, PortDirection::In, PortDataType::Json, false, "Data payload to write"@),
                ("affected_rows"@, PortDirection::Out, PortDataType::Number, false, "Number of rows affected"@),
                ("error"@, PortDirection::Out, PortDataType::String, false, "Error message if write failed"@),
            ],
            ConnectorKind::MlPredict => seq![
                ("features"@, PortDirection::In, PortDataType::Json, true, "Feature vector / input JSON"@),
                ("prediction"@, PortDirection::Out, PortDataType::Json, false, "Model prediction output"@),
                ("confidence"@, PortDirection::Out, PortDataType::Number, false, "Confidence or probability score [0,1]"@),
                ("error"@, PortDirection::Out, PortDataType::String, false, "Inference error, if any"@),
            ],
            ConnectorKind::MlTrain => seq![
                ("dataset_ref"@, PortDirection::In, PortDataType::String, true, "Artifact ID of the training dataset"@),
                ("config"@, PortDirection::In, PortDataType::Json, false, "Training configuration overrides"@),
                ("model_artifact"@, PortDirection::Out, PortDataType::String, false, "Artifact ID of the trained model"@),
                ("metrics"@, PortDirection::Out, PortDataType::Json, false, "Training metrics (loss, accuracy, etc.)"@),
                ("error"@, PortDirection::Out, PortDataType::String, false, "Training error, if any"@),
            ],
            ConnectorKind::TradingOrder => seq![
                ("signal"@, PortDirection::In, PortDataType::Json, true, "Trading signal including side, size, and price"@),
                ("order_id"@, PortDirection::Out, PortDataType::String, false, "Exchange-assigned order ID"@),
                ("fill"@, PortDirection::Out, PortDataType::Json, false, "Fill details (price, quantity, timestamp)"@),
                ("error"@, PortDirection::Out, PortDataType::String, false, "Order rejection or error"@),
            ],
            ConnectorKind::TradingMarketData => seq![
                ("trigger"@, PortDirection::In, PortDataType::Any, false, "Fetch trigger or subscription start"@),
                ("ohlcv"@, PortDirection::Out, PortDataType::Array, false, "OHLCV candle array"@),
                ("last_price"@, PortDirection::Out, PortDataType::Number, false, "Latest traded price"@),
                ("order_book"@, PortDirection::Out, PortDataType::Json, false, "Current order book snapshot"@),
                ("error"@, PortDirection::Out, PortDataType::String, false, "Data fetch error, if any"@),
            ],
        }
    }

    /// The parameters of the connector's template, in order.
    pub open spec fn spec_params(self) -> Seq<ParamShape> {
        match self {
            ConnectorKind::HttpRequest => seq![
                ("url"@, "Request URL"@, true, None),
                ("method"@, "HTTP method"@, false, Some(JsonModel::Str("GET"@))),
                ("timeout_ms"@, "Request timeout in milliseconds"@, false, Some(JsonModel::Int(5000))),
                ("headers"@, "Additional request headers (JSON object)"@, false, Some(JsonModel::Object(Seq::empty()))),
            ],
            ConnectorKind::HttpWebhook => seq![
                ("path"@, "Webhook path (e.g. /hooks/my-event)"@, true, None),
                ("secret"@, "HMAC signing secret for payload verification"@, false, Some(JsonModel::Str(""@))),
            ],
            ConnectorKind::BlockchainRpc => seq![
                ("rpc_url"@, "Blockchain node RPC endpoint URL"@, true, None),
                ("method"@, "JSON-RPC method name (e.g. eth_blockNumber)"@, true, None),
                ("chain_id"@, "EVM chain ID"@, false, Some(JsonModel::Int(1))),
            ],
            ConnectorKind::BlockchainSign => seq![
                ("rpc_url"@, "Blockchain node RPC endpoint URL"@, true, None),
                ("key_ref"@, "Reference to the signing key (secret store key name)"@, true, None),
                ("wait_confirmations"@, "Number of confirmations to wait for receipt"@, false, Some(JsonModel::Int(1))),
            ],
            ConnectorKind::DatabaseQuery => seq![
                ("connection_ref"@, "DB connection string reference"@, true, None),
                ("query"@, "SQL or NoSQL query string"@, true, None),
                ("timeout_ms"@, "Query timeout in milliseconds"@, false, Some(JsonModel::Int(10000))),
            ],
            ConnectorKind::DatabaseWrite => seq![
                ("connection_ref"@, "DB connection string reference"@, true, None),
                ("statement"@, "SQL or NoSQL write statement"@, true, None),
                ("timeout_ms"@, "Write timeout in milliseconds"@, false, Some(JsonModel::Int(10000))),
            ],
            ConnectorKind::MlPredict => seq![
                ("model_id"@, "Registered model identifier"@, true, None),
                ("version"@, "Model version (defaults to latest)"@, false, Some(JsonModel::Str("latest"@))),
                ("timeout_ms"@, "Inference timeout in milliseconds"@, false, Some(JsonModel::Int(3000))),
            ],
            ConnectorKind::MlTrain => seq![
                ("model_kind"@, "Type of model to train (e.g. xgboost, transformer)"@, true, None),
                ("max_epochs"@, "Maximum number of training epochs"@, false, Some(JsonModel::Int(100))),
                ("gpu_budget"@, "GPU memory budget in MiB (0 = CPU only)"@, false, Some(JsonModel::Int(0))),
            ],
            ConnectorKind::TradingOrder => seq![
                ("exchange_ref"@, "Exchange connection reference"@, true, None),
                ("symbol"@, "Trading symbol (e.g. BTC-USD)"@, true, None),
                ("order_type"@, "Order type: market | limit | stop"@, false, Some(JsonModel::Str("market"@))),
                ("paper_mode"@, "Run in paper trading mode"@, false, Some(JsonModel::Bool(true))),
            ],
            ConnectorKind::TradingMarketData => seq![
                ("exchange_ref"@, "Exchange connection reference"@, true, None),
                ("symbol"@, "Trading symbol (e.g. ETH-USD)"@, true, None),
                ("interval"@, "Candle interval (e.g. 1m, 5m, 1h)"@, false, Some(JsonModel::Str("1m"@))),
                ("limit"@, "Number of candles to fetch"@, false, Some(JsonModel::Int(100))),
            ],
        }
    }
}

/// A template for a workflow connector node.
#[derive(Debug)]
pub struct ConnectorTemplate {
    /// Category.
    pub kind: ConnectorKind,
    /// Node kind text.
    pub node_kind: &'static str,
    /// Display name.
    pub display_name: &'static str,
    /// What the connector does.
    pub description: &'static str,
    /// Ports copied into each instantiated node.
    pub ports: Vec<PortDef>,
    /// Default parameters.
    pub params: Vec<ConnectorParam>,
}

impl ConnectorTemplate {
    /// A new graph node of the template's kind with its ports (a repeated
    /// name is skipped) and the defaults of its parameters.
    pub fn instantiate(&self, label: &str) -> (r: GraphNode)
        ensures
            r.kind@ == self.node_kind@,
            r.label@ == label@,
            r.ports@ == ports_added(Map::empty(), self.ports@),
            r.parameters@ == defaults_added(Map::empty(), self.params@),
            r.position == (0i64, 0i64),
            r.subgraph_ref is None,
    {
        let mut node = GraphNode::new(self.node_kind, label);
        let n = self.ports.len();
        for i in 0..n
            invariant
                n == self.ports@.len(),
                node.kind@ == self.node_kind@,
                node.label@ == label@,
                node.parameters@ == Map::<Seq<char>, JsonValue>::empty(),
                node.ports@ == ports_added(Map::empty(), self.ports@.take(i as int)),
                node.position == (0i64, 0i64),
                node.subgraph_ref is None,
        {
            proof {
                assert(self.ports@.take(i + 1).drop_last() =~= self.ports@.take(i as int));
                assert(self.ports@.take(i + 1).last() == self.ports@[i as int]);
            }
            let _ = node.add_port(self.ports[i].clone());
        }
        proof {
            assert(self.ports@.take(n as int) =~= self.ports@);
        }
        let m = self.params.len();
        for j in 0..m
            invariant
                m == self.params@.len(),
                node.kind@ == self.node_kind@,
                node.label@ == label@,
                node.ports@ == ports_added(Map::empty(), self.ports@),
                node.parameters@ == defaults_added(Map::empty(), self.params@.take(j as int)),
                node.position == (0i64, 0i64),
                node.subgraph_ref is None,
        {
            proof {
                assert(self.params@.take(j + 1).drop_last() =~= self.params@.take(j as int));
                assert(self.params@.take(j + 1).last() == self.params@[j as int]);
            }
            match &self.params[j].default {
                Some(d) => {
                    let _ = node.parameters.insert(self.params[j].name.to_owned(), d.clone());
                },
                None => {},
            }
        }
        proof {
            assert(self.params@.take(m as int) =~= self.params@);
        }
        node
    }
}

/// A template as the catalogue fixes it for `kind`.
pub open spec fn template_fits(t: ConnectorTemplate, kind: ConnectorKind) -> bool {
    &&& t.kind == kind
    &&& t.node_kind@ == kind.spec_node_kind()
    &&& t.display_name@ == kind.spec_display_name()
    &&& t.description@ == kind.spec_description()
    &&& port_shapes(t.ports@) == kind.spec_ports()
    &&& param_shapes(t.params@) == kind.spec_params()
}

/// The built-in template of `kind`.
fn template(kind: ConnectorKind) -> (r: ConnectorTemplate)
    ensures
        template_fits(r, kind),
{
    let r = match kind {
        ConnectorKind::HttpRequest => ConnectorTemplate {
            kind: ConnectorKind::HttpRequest,
            node_kind: "http.request",
            display_name: "HTTP Request",
            description: "Send an HTTP request and receive the response.",
            ports: vec![
                PortDef::new("trigger", PortDirection::In, PortDataType::Any).with_description("Execution trigger"),
                PortDef::new("body", PortDirection::In, PortDataType::Json).with_description("Optional request body"),
                PortDef::new("response", PortDirection::Out, PortDataType::Json).with_description("Parsed JSON response"),
                PortDef::new("status_code", PortDirection::Out, PortDataType::Number).with_description("HTTP response status code"),
                PortDef::new("error", PortDirection::Out, PortDataType::String).with_description("Error message if request failed"),
            ],
            params: vec![
                ConnectorParam::required("url", "Request URL"),
                ConnectorParam::optional("method", "HTTP method", JsonValue::string("GET")),
                ConnectorParam::optional("timeout_ms", "Request timeout in milliseconds", JsonValue::Int(5000)),
                ConnectorParam::optional("headers", "Additional request headers (JSON object)", JsonValue::empty_object()),
            ],
        },
        ConnectorKind::HttpWebhook => ConnectorTemplate {
            kind: ConnectorKind::HttpWebhook,
            node_kind: "http.webhook",
            display_name: "HTTP Webhook",
            description: "Receive incoming HTTP webhook events.",
            ports: vec![
                PortDef::new("payload", PortDirection::Out, PortDataType::Json).with_description("Incoming webhook payload"),
                PortDef::new("headers", PortDirection::Out, PortDataType::Json).with_description("Incoming HTTP headers"),
                PortDef::new("method", PortDirection::Out, PortDataType::String).with_description("HTTP method of the incoming request"),
            ],
            params: vec![
                ConnectorParam::required("path", "Webhook path (e.g. /hooks/my-event)"),
                ConnectorParam::optional("secret", "HMAC signing secret for payload verification", JsonValue::string("")),
            ],
        },
        ConnectorKind::BlockchainRpc => ConnectorTemplate {
            kind: ConnectorKind::BlockchainRpc,
            node_kind: "blockchain.rpc",
            display_name: "Blockchain RPC",
            description: "Execute a JSON-RPC call against a blockchain node.",
            ports: vec![
                PortDef::new("trigger", PortDirection::In, PortDataType::Any).with_description("Execution trigger"),
                PortDef::new("params", PortDirection::In, PortDataType::Array).with_description("RPC method parameters array"),
                PortDef::new("result", PortDirection::Out, PortDataType::Json).with_description("RPC result value"),
                PortDef::new("error", PortDirection::Out, PortDataType::String).with_description("RPC error message, if any"),
            ],
            params: vec![
                ConnectorParam::required("rpc_url", "Blockchain node RPC endpoint URL"),
                ConnectorParam::required("method", "JSON-RPC method name (e.g. eth_blockNumber)"),
                ConnectorParam::optional("chain_id", "EVM chain ID", JsonValue::Int(1)),
            ],
        },
        ConnectorKind::BlockchainSign => ConnectorTemplate {
            kind: ConnectorKind::BlockchainSign,
            node_kind: "blockchain.sign",
            display_name: "Blockchain Sign & Submit",
            description: "Sign and submit a transaction to a blockchain.",
            ports: vec![
                PortDef::new("tx_data", PortDirection::In, PortDataType::Json).with_description("Unsigned transaction object").required(),
                PortDef::new("tx_hash", PortDirection::Out, PortDataType::String).with_description("Submitted transaction hash"),
                PortDef::new("receipt", PortDirection::Out, PortDataType::Json).with_description("Transaction receipt (after confirmation)"),
                PortDef::new("error", PortDirection::Out, PortDataType::String).with_description("Error message if submission failed"),
            ],
            params: vec![
                ConnectorParam::required("rpc_url", "Blockchain node RPC endpoint URL"),
                ConnectorParam::required("key_ref", "Reference to the signing key (secret store key name)"),
                ConnectorParam::optional("wait_confirmations", "Number of confirmations to wait for receipt", JsonValue::Int(1)),
            ],
        },
        ConnectorKind::DatabaseQuery => ConnectorTemplate {
            kind: ConnectorKind::DatabaseQuery,
            node_kind: "db.query",
            display_name: "Database Query",
            description: "Execute a read query against a database.",
            ports: vec![
                PortDef::new("trigger", PortDirection::In, PortDataType::Any).with_description("Execution trigger"),
                PortDef::new("bindings", PortDirection::In, PortDataType::Json).with_description("Query parameter bindings"),
                PortDef::new("rows", PortDirection::Out, PortDataType::Array).with_description("Result rows as a JSON array"),
                PortDef::new("row_count", PortDirection::Out, PortDataType::Number).with_description("Number of rows returned"),
                PortDef::new("error", PortDirection::Out, PortDataType::String).with_description("Error message if query failed"),
            ],
            params: vec![
                ConnectorParam::required("connection_ref", "DB connection string reference"),
                ConnectorParam::required("query", "SQL or NoSQL query string"),
                ConnectorParam::optional("timeout_ms", "Query timeout in milliseconds", JsonValue::Int(10000)),
            ],
        },
        ConnectorKind::DatabaseWrite => ConnectorTemplate {
            kind: ConnectorKind::DatabaseWrite,
            node_kind: "db.write",
            display_name: "Database Write",
            description: "Execute a write (insert / update / delete) against a database.",
            ports: vec![
                PortDef::new("trigger", PortDirection::In, PortDataType::Any).with_description("Execution trigger"),
                PortDef::new("data", PortDirection::In, PortDataType::Json).with_description("Data payload to write"),
                PortDef::new("affected_rows", PortDirection::Out, PortDataType::Number).with_description("Number of rows affected"),
                PortDef::new("error", PortDirection::Out, PortDataType::String).with_description("Error message if write failed"),
            ],
            params: vec![
                ConnectorParam::required("connection_ref", "DB connection string reference"),
                ConnectorParam::required("statement", "SQL or NoSQL write statement"),
                ConnectorParam::optional("timeout_ms", "Write timeout in milliseconds", JsonValue::Int(10000)),
            ],
        },
        ConnectorKind::MlPredict => ConnectorTemplate {
            kind: ConnectorKind::MlPredict,
            node_kind: "ml.predict",
            display_name: "ML Predict",
            description: "Run inference against a registered ML model.",
            ports: vec![
                PortDef::new("features", PortDirection::In, PortDataType::Json).with_description("Feature vector / input JSON").required(),
                PortDef::new("prediction", PortDirection::Out, PortDataType::Json).with_description("Model prediction output"),
                PortDef::new("confidence", PortDirection::Out, PortDataType::Number).with_description("Confidence or probability score [0,1]"),
                PortDef::new("error", PortDirection::Out, PortDataType::String).with_description("Inference error, if any"),
            ],
            params: vec![
                ConnectorParam::required("model_id", "Registered model identifier"),
                ConnectorParam::optional("version", "Model version (defaults to latest)", JsonValue::string("latest")),
                ConnectorParam::optional("timeout_ms", "Inference timeout in milliseconds", JsonValue::Int(3000)),
            ],
        },
        ConnectorKind::MlTrain => ConnectorTemplate {
            kind: ConnectorKind::MlTrain,
            node_kind: "ml.train",
            display_name: "ML Train",
            description: "Submit a training job for an ML model.",
            ports: vec![
                PortDef::new("dataset_ref", PortDirection::In, PortDataType::String).with_description("Artifact ID of the training dataset").required(),
                PortDef::new("config", PortDirection::In, PortDataType::Json).with_description("Training configuration overrides"),
                PortDef::new("model_artifact", PortDirection::Out, PortDataType::String).with_description("Artifact ID of the trained model"),
                PortDef::new("metrics", PortDirection::Out, PortDataType::Json).with_description("Training metrics (loss, accuracy, etc.)"),
                PortDef::new("error", PortDirection::Out, PortDataType::String).with_description("Training error, if any"),
            ],
            params: vec![
                ConnectorParam::required("model_kind", "Type of model to train (e.g. xgboost, transformer)"),
                ConnectorParam::optional("max_epochs", "Maximum number of training epochs", JsonValue::Int(100)),
                ConnectorParam::optional("gpu_budget", "GPU memory budget in MiB (0 = CPU only)", JsonValue::Int(0)),
            ],
        },
        ConnectorKind::TradingOrder => ConnectorTemplate {
            kind: ConnectorKind::TradingOrder,
            node_kind: "trading.order",
            display_name: "Trading Order",
            description: "Submit a trading order (market, limit, or stop).",
            ports: vec![
                PortDef::new("signal", PortDirection::In, PortDataType::Json).with_description("Trading signal including side, size, and price").required(),
                PortDef::new("order_id", PortDirection::Out, PortDataType::String).with_description("Exchange-assigned order ID"),
                PortDef::new("fill", PortDirection::Out, PortDataType::Json).with_description("Fill details (price, quantity, timestamp)"),
                PortDef::new("error", PortDirection::Out, PortDataType::String).with_description("Order rejection or error"),
            ],
            params: vec![
                ConnectorParam::required("exchange_ref", "Exchange connection reference"),
                ConnectorParam::required("symbol", "Trading symbol (e.g. BTC-USD)"),
                ConnectorParam::optional("order_type", "Order type: market | limit | stop", JsonValue::string("market")),
                ConnectorParam::optional("paper_mode", "Run in paper trading mode", JsonValue::Bool(true)),
            ],
        },
        ConnectorKind::TradingMarketData => ConnectorTemplate {
            kind: ConnectorKind::TradingMarketData,
            node_kind: "trading.market_data",
            display_name: "Market Data",
            description: "Ingest and normalise market data (OHLCV, tick, order book).",
            ports: vec![
                PortDef::new("trigger", PortDirection::In, PortDataType::Any).with_description("Fetch trigger or subscription start"),
                PortDef::new("ohlcv", PortDirection::Out, PortDataType::Array).with_description("OHLCV candle array"),
                PortDef::new("last_price", PortDirection::Out, PortDataType::Number).with_description("Latest traded price"),
                PortDef::new("order_book", PortDirection::Out, PortDataType::Json).with_description("Current order book snapshot"),
                PortDef::new("error", PortDirection::Out, PortDataType::String).with_description("Data fetch error, if any"),
            ],
            params: vec![
                ConnectorParam::required("exchange_ref", "Exchange connection reference"),
                ConnectorParam::required("symbol", "Trading symbol (e.g. ETH-USD)"),
                ConnectorParam::optional("interval", "Candle interval (e.g. 1m, 5m, 1h)", JsonValue::string("1m")),
                ConnectorParam::optional("limit", "Number of candles to fetch", JsonValue::Int(100)),
            ],
        },
    };
    proof {
        assert(port_shapes(r.ports@) =~= kind.spec_ports());
        assert(param_shapes(r.params@) =~= kind.spec_params());
    }
    r
}

/// The built-in templates, one per kind in catalogue order.
pub fn built_in_templates() -> (r: Vec<ConnectorTemplate>)
    ensures
        r@.len() == connector_kinds().len(),
        forall|i: int| 0 <= i < r@.len() ==> template_fits(#[trigger] r@[i], connector_kinds()[i]),
{
    let mut out: Vec<ConnectorTemplate> = Vec::new();
    out.push(template(ConnectorKind::HttpRequest));
    out.push(template(ConnectorKind::HttpWebhook));
    out.push(template(ConnectorKind::BlockchainRpc));
    out.push(template(ConnectorKind::BlockchainSign));
    out.push(template(ConnectorKind::DatabaseQuery));
    out.push(template(ConnectorKind::DatabaseWrite));
    out.push(template(ConnectorKind::MlPredict));
    out.push(template(ConnectorKind::MlTrain));
    out.push(template(ConnectorKind::TradingOrder));
    out.push(template(ConnectorKind::TradingMarketData));
    proof {
        assert(out@.len() == connector_kinds().len());
    }
    out
}

/// The first template of `kind` in `s`, if any.
pub open spec fn template_of(s: Seq<ConnectorTemplate>, kind: ConnectorKind) -> Option<int> {
    if exists|i: int| 0 <= i < s.len() && s[i].kind == kind {
        Some(choose|i: int| 0 <= i < s.len() && s[i].kind == kind && forall|j: int| 0 <= j < i ==> s[j].kind != kind)
    } else {
        None
    }
}

/// The built-in connector templates, one per kind.
#[derive(Debug)]
pub struct ConnectorRegistry {
    templates: Vec<ConnectorTemplate>,
}

impl ConnectorRegistry {
    /// The templates in catalogue order.
    pub closed spec fn spec_templates(&self) -> Seq<ConnectorTemplate> {
        self.templates@
    }

    /// A registry of every built-in template.
    pub fn new() -> (r: Self)
        ensures
            r.spec_templates().len() == connector_kinds().len(),
            forall|i: int| 0 <= i < r.spec_templates().len() ==> template_fits(#[trigger] r.spec_templates()[i], connector_kinds()[i]),
    {
        ConnectorRegistry { templates: built_in_templates() }
    }

    /// The template of a kind.
    pub fn get(&self, kind: ConnectorKind) -> (r: Option<&ConnectorTemplate>)
        ensures
            match template_of(self.spec_templates(), kind) {
                Some(i) => r == Some(&self.spec_templates()[i]),
                None => r is None,
            },
    {
        let n = self.templates.len();
        for i in 0..n
            invariant
                n == self.templates@.len(),
                forall|j: int| 0 <= j < i ==> self.templates@[j].kind != kind,
        {
            if self.templates[i].kind == kind {
                proof {
                    let s = self.templates@;
                    assert(s[i as int].kind == kind);
                    let c = choose|c: int| 0 <= c < s.len() && s[c].kind == kind && forall|j: int| 0 <= j < c ==> s[j].kind != kind;
                    assert(c == i) by {
                        if c > i {
                            assert(s[i as int].kind != kind);
                        }
                    }
                }
                return Some(&self.templates[i]);
            }
        }
        None
    }

    /// Every template, in catalogue order.
    pub fn all(&self) -> (r: &Vec<ConnectorTemplate>)
        ensures
            r@ == self.spec_templates(),
    {
        &self.templates
    }

    /// A new node from the template of a kind; none when no template has
    /// that kind.
    pub fn instantiate(&self, kind: ConnectorKind, label: &str) -> (r: Option<GraphNode>)
        ensures
            match template_of(self.spec_templates(), kind) {
                Some(i) => r matches Some(node) && node.kind@ == self.spec_templates()[i].node_kind@
                    && node.label@ == label@
                    && node.ports@ == ports_added(Map::empty(), self.spec_templates()[i].ports@)
                    && node.parameters@ == defaults_added(Map::empty(), self.spec_templates()[i].params@),
                None => r is None,
            },
    {
        match self.get(kind) {
            Some(t) => Some(t.instantiate(label)),
            None => None,
        }
    }
}

impl Default for ConnectorRegistry {
    /// The registry of every built-in template.
    fn default() -> (r: Self)
        ensures
            r.spec_templates().len() == connector_kinds().len(),
            forall|i: int| 0 <= i < r.spec_templates().len() ==> template_fits(#[trigger] r.spec_templates()[i], connector_kinds()[i]),
    {
        ConnectorRegistry::new()
    }
}

} // verus!
