//! The OpenAPI synthesizer: mapping each collected contract function into an
//! HTTP path, method and schema triple, and assembling the full document.

use vstd::prelude::*;
use vstd::string::*;
use crate::collect::{ABICollection, CollectedABI, SpecCollectedAbi, SpecCollection};
use crate::json::{spec_lookup, Json, JsonValue};
use crate::metadata::spec_string_field;
use crate::text::{ends_with, starts_with, str_eq};

verus! {

broadcast use vstd::std_specs::vec::axiom_vec_index_decreases, vstd::std_specs::vec::axiom_vec_decreases_to_view;

/// The model of a schema: a type name, the element schema of an array (a
/// sequence of zero or one schemas), and the properties of an object.
pub struct SpecSchema {
    /// The schema's `type` field.
    pub schema_type: Seq<char>,
    /// The element schema for arrays: empty when absent, else one schema.
    pub items: Seq<SpecSchema>,
    /// The object properties, absent where the schema is no object.
    pub properties: Option<Seq<(Seq<char>, SpecSchema)>>,
}

/// The model of one operation parameter.
pub struct SpecParameter {
    /// The parameter name.
    pub name: Seq<char>,
    /// Where the parameter stands, always `query`.
    pub location: Seq<char>,
    /// Whether the parameter must be given.
    pub required: bool,
    /// The parameter's schema.
    pub schema: SpecSchema,
    /// A description naming the ABI type.
    pub description: Seq<char>,
}

/// The model of one media-type entry.
pub struct SpecContent {
    /// The content schema.
    pub schema: SpecSchema,
}

/// The model of a request body.
pub struct SpecRequestBody {
    /// Whether the body must be given.
    pub required: bool,
    /// Media types to content.
    pub content: Seq<(Seq<char>, SpecContent)>,
}

/// The model of one response.
pub struct SpecResponse {
    /// The response description.
    pub description: Seq<char>,
    /// Media types to content, absent for responses without a body.
    pub content: Option<Seq<(Seq<char>, SpecContent)>>,
}

/// The model of one operation.
pub struct SpecOperation {
    /// A short title.
    pub summary: Seq<char>,
    /// A description naming function, contract and state mutability.
    pub description: Seq<char>,
    /// The unique operation id `{contract}_{function}`.
    pub operation_id: Seq<char>,
    /// Status codes to responses.
    pub responses: Seq<(Seq<char>, SpecResponse)>,
    /// The query parameters, absent when there are none.
    pub parameters: Option<Seq<SpecParameter>>,
    /// The request body, absent when there is none.
    pub request_body: Option<SpecRequestBody>,
}

/// The model of the document's info block.
pub struct SpecInfo {
    /// The document title.
    pub title: Seq<char>,
    /// The document version.
    pub version: Seq<char>,
    /// The document description.
    pub description: Seq<char>,
}

/// The model of a whole OpenAPI document.
pub struct SpecOpenAPI {
    /// The OpenAPI version, always `3.0.0`.
    pub openapi: Seq<char>,
    /// The info block.
    pub info: SpecInfo,
    /// Paths to method maps.
    pub paths: Seq<(Seq<char>, Seq<(Seq<char>, SpecOperation)>)>,
    /// Named component schemas; none are emitted.
    pub schemas: Seq<(Seq<char>, SpecSchema)>,
}

/// An OpenAPI schema.
#[derive(Debug)]
pub struct OpenAPISchema {
    /// The schema's `type` field.
    pub schema_type: String,
    /// The element schema for arrays.
    pub items: Option<Box<OpenAPISchema>>,
    /// The object properties.
    pub properties: Option<Vec<(String, OpenAPISchema)>>,
}

/// The models of a sequence of named schemas.
pub open spec fn prop_views(ps: Seq<(String, OpenAPISchema)>) -> Seq<(Seq<char>, SpecSchema)>
    decreases ps,
{
    Seq::new(
        ps.len(),
        |i: int|
            if 0 <= i < ps.len() {
                (ps[i].0@, ps[i].1@)
            } else {
                (
                    Seq::empty(),
                    SpecSchema {
                        schema_type: Seq::empty(),
                        items: Seq::empty(),
                        properties: None,
                    },
                )
            },
    )
}

impl View for OpenAPISchema {
    type V = SpecSchema;

    open spec fn view(&self) -> SpecSchema
        decreases self,
    {
        SpecSchema {
            schema_type: self.schema_type@,
            items: match self.items {
                Some(b) => seq![(*b)@],
                None => Seq::empty(),
            },
            properties: match self.properties {
                Some(ps) => Some(prop_views(ps@)),
                None => None,
            },
        }
    }
}

/// How `prop_views` relates to its input, property by property.
pub proof fn lemma_prop_views(ps: Seq<(String, OpenAPISchema)>)
    ensures
        prop_views(ps).len() == ps.len(),
        forall|i: int| 0 <= i < ps.len() ==> #[trigger] prop_views(ps)[i] == (ps[i].0@, ps[i].1@),
{
}

/// One operation parameter.
#[derive(Debug)]
pub struct OpenAPIParameter {
    /// The parameter name.
    pub name: String,
    /// Where the parameter stands, always `query`.
    pub location: String,
    /// Whether the parameter must be given.
    pub required: bool,
    /// The parameter's schema.
    pub schema: OpenAPISchema,
    /// A description naming the ABI type.
    pub description: String,
}

impl View for OpenAPIParameter {
    type V = SpecParameter;

    open spec fn view(&self) -> SpecParameter {
        SpecParameter {
            name: self.name@,
            location: self.location@,
            required: self.required,
            schema: self.schema@,
            description: self.description@,
        }
    }
}

/// One media-type entry.
#[derive(Debug)]
pub struct OpenAPIContent {
    /// The content schema.
    pub schema: OpenAPISchema,
}

impl View for OpenAPIContent {
    type V = SpecContent;

    open spec fn view(&self) -> SpecContent {
        SpecContent { schema: self.schema@ }
    }
}

/// A request body.
#[derive(Debug)]
pub struct OpenAPIRequestBody {
    /// Whether the body must be given.
    pub required: bool,
    /// Media types to content.
    pub content: Vec<(String, OpenAPIContent)>,
}

impl View for OpenAPIRequestBody {
    type V = SpecRequestBody;

    open spec fn view(&self) -> SpecRequestBody {
        SpecRequestBody {
            required: self.required,
            content: self.content@.map_values(|p: (String, OpenAPIContent)| (p.0@, p.1@)),
        }
    }
}

/// One response.
#[derive(Debug)]
pub struct OpenAPIResponse {
    /// The response description.
    pub description: String,
    /// Media types to content, absent for responses without a body.
    pub content: Option<Vec<(String, OpenAPIContent)>>,
}

impl View for OpenAPIResponse {
    type V = SpecResponse;

    open spec fn view(&self) -> SpecResponse {
        SpecResponse {
            description: self.description@,
            content: match self.content {
                Some(c) => Some(c@.map_values(|p: (String, OpenAPIContent)| (p.0@, p.1@))),
                None => None,
            },
        }
    }
}

/// One operation: what stands under a method of a path.
#[derive(Debug)]
pub struct OpenAPIPath {
    /// A short title.
    pub summary: String,
    /// A description naming function, contract and state mutability.
    pub description: String,
    /// The unique operation id `{contract}_{function}`.
    pub operation_id: String,
    /// Status codes to responses.
    pub responses: Vec<(String, OpenAPIResponse)>,
    /// The query parameters, absent when there are none.
    pub parameters: Option<Vec<OpenAPIParameter>>,
    /// The request body, absent when there is none.
    pub request_body: Option<OpenAPIRequestBody>,
}

impl View for OpenAPIPath {
    type V = SpecOperation;

    open spec fn view(&self) -> SpecOperation {
        SpecOperation {
            summary: self.summary@,
            description: self.description@,
            operation_id: self.operation_id@,
            responses: self.responses@.map_values(|p: (String, OpenAPIResponse)| (p.0@, p.1@)),
            parameters: match self.parameters {
                Some(ps) => Some(ps@.map_values(|q: OpenAPIParameter| q@)),
                None => None,
            },
            request_body: match self.request_body {
                Some(b) => Some(b@),
                None => None,
            },
        }
    }
}

/// The document's info block.
#[derive(Debug)]
pub struct OpenAPIInfo {
    /// The document title.
    pub title: String,
    /// The document version.
    pub version: String,
    /// The document description.
    pub description: String,
}

impl View for OpenAPIInfo {
    type V = SpecInfo;

    open spec fn view(&self) -> SpecInfo {
        SpecInfo { title: self.title@, version: self.version@, description: self.description@ }
    }
}

/// The named component schemas.
#[derive(Debug)]
pub struct OpenAPIComponents {
    /// Schema name to schema; none are emitted.
    pub schemas: Vec<(String, OpenAPISchema)>,
}

/// A whole OpenAPI document.
#[derive(Debug)]
pub struct OpenAPISpec {
    /// The OpenAPI version, always `3.0.0`.
    pub openapi: String,
    /// The info block.
    pub info: OpenAPIInfo,
    /// Paths to method maps.
    pub paths: Vec<(String, Vec<(String, OpenAPIPath)>)>,
    /// The component schemas.
    pub components: OpenAPIComponents,
}

impl View for OpenAPISpec {
    type V = SpecOpenAPI;

    open spec fn view(&self) -> SpecOpenAPI {
        SpecOpenAPI {
            openapi: self.openapi@,
            info: self.info@,
            paths: self.paths@.map_values(
                |p: (String, Vec<(String, OpenAPIPath)>)|
                    (
                        p.0@,
                        p.1@.map_values(|q: (String, OpenAPIPath)| (q.0@, q.1@)),
                    ),
            ),
            schemas: self.components.schemas@.map_values(
                |p: (String, OpenAPISchema)| (p.0@, p.1@),
            ),
        }
    }
}

/// The schema an ABI type maps to: arrays recurse on their element type,
/// integer types of any width map to `integer`, `bool` to `boolean`,
/// `address`, the `bytes` family and `string` to `string`, and every other
/// type falls back to `string`.
pub open spec fn spec_abi_schema(t: Seq<char>) -> SpecSchema
    decreases t.len(),
{
    if seq!['[', ']'].is_suffix_of(t) {
        SpecSchema {
            schema_type: "array"@,
            items: seq![spec_abi_schema(t.take(t.len() - 2))],
            properties: None,
        }
    } else if "uint"@.is_prefix_of(t) || "int"@.is_prefix_of(t) {
        SpecSchema { schema_type: "integer"@, items: Seq::empty(), properties: None }
    } else if t == "bool"@ {
        SpecSchema { schema_type: "boolean"@, items: Seq::empty(), properties: None }
    } else if t == "address"@ || "bytes"@.is_prefix_of(t) || t == "string"@ {
        SpecSchema { schema_type: "string"@, items: Seq::empty(), properties: None }
    } else {
        SpecSchema { schema_type: "string"@, items: Seq::empty(), properties: None }
    }
}

/// Map an ABI type string to its OpenAPI schema, as [`spec_abi_schema`]
/// describes.
pub fn abi_type_to_openapi_schema(abi_type: &str) -> (r: OpenAPISchema)
    ensures
        r@ == spec_abi_schema(abi_type@),
    decreases abi_type@.len(),
{
    let n = abi_type.unicode_len();
    if ends_with(abi_type, "[]") {
        proof {
            reveal_strlit("[]");
            assert("[]"@ =~= seq!['[', ']']);
        }
        let inner = abi_type_to_openapi_schema(abi_type.substring_char(0, n - 2));
        let r = OpenAPISchema {
            schema_type: String::from_str("array"),
            items: Some(Box::new(inner)),
            properties: None,
        };
        proof {
            assert(abi_type@.subrange(0, n - 2) =~= abi_type@.take(abi_type@.len() - 2));
        }
        r
    } else {
        proof {
            reveal_strlit("[]");
            assert("[]"@ =~= seq!['[', ']']);
        }
        if starts_with(abi_type, "uint") || starts_with(abi_type, "int") {
            OpenAPISchema {
                schema_type: String::from_str("integer"),
                items: None,
                properties: None,
            }
        } else if str_eq(abi_type, "bool") {
            OpenAPISchema {
                schema_type: String::from_str("boolean"),
                items: None,
                properties: None,
            }
        } else {
            OpenAPISchema { schema_type: String::from_str("string"), items: None, properties: None }
        }
    }
}

/// The decimal digit character for `d`.
pub open spec fn spec_digit(d: nat) -> char {
    if d == 0 {
        '0'
    } else if d == 1 {
        '1'
    } else if d == 2 {
        '2'
    } else if d == 3 {
        '3'
    } else if d == 4 {
        '4'
    } else if d == 5 {
        '5'
    } else if d == 6 {
        '6'
    } else if d == 7 {
        '7'
    } else if d == 8 {
        '8'
    } else {
        '9'
    }
}

/// The decimal rendering of `n`, without leading zeros.
pub open spec fn spec_dec(n: nat) -> Seq<char>
    decreases n,
{
    if n < 10 {
        seq![spec_digit(n)]
    } else {
        spec_dec(n / 10) + seq![spec_digit(n % 10)]
    }
}

/// The decimal digit character for `d < 10`, as a string slice.
fn digit_str(d: usize) -> (r: &'static str)
    requires
        d < 10,
    ensures
        r@ == seq![spec_digit(d as nat)],
{
    proof {
        reveal_strlit("0");
        reveal_strlit("1");
        reveal_strlit("2");
        reveal_strlit("3");
        reveal_strlit("4");
        reveal_strlit("5");
        reveal_strlit("6");
        reveal_strlit("7");
        reveal_strlit("8");
        reveal_strlit("9");
    }
    let r = match d {
        0 => "0",
        1 => "1",
        2 => "2",
        3 => "3",
        4 => "4",
        5 => "5",
        6 => "6",
        7 => "7",
        8 => "8",
        _ => "9",
    };
    proof {
        assert(r@ =~= seq![spec_digit(d as nat)]);
    }
    r
}

/// Render `n` in decimal.
pub fn dec_string(n: usize) -> (r: String)
    ensures
        r@ == spec_dec(n as nat),
    decreases n,
{
    if n < 10 {
        String::from_str(digit_str(n))
    } else {
        let mut r = dec_string(n / 10);
        r.append(digit_str(n % 10));
        r
    }
}

/// Is this ABI entry a function entry?
pub open spec fn spec_is_function(entry: Json) -> bool {
    spec_string_field(entry, "type"@) == Some("function"@)
}

/// The entry's function name, `unknown` where absent.
pub open spec fn spec_fname(entry: Json) -> Seq<char> {
    match spec_string_field(entry, "name"@) {
        Some(n) => n,
        None => "unknown"@,
    }
}

/// The entry's state mutability, `nonpayable` where absent.
pub open spec fn spec_mutability(entry: Json) -> Seq<char> {
    match spec_string_field(entry, "stateMutability"@) {
        Some(s) => s,
        None => "nonpayable"@,
    }
}

/// The HTTP method a state mutability demands: `get` for the read-only
/// `view` and `pure`, `post` for everything else.
pub open spec fn spec_method_of(sm: Seq<char>) -> Seq<char> {
    if sm == "view"@ || sm == "pure"@ {
        "get"@
    } else {
        "post"@
    }
}

/// The elements of the array under `key`, empty where absent or no array.
pub open spec fn spec_arr_field(j: Json, key: Seq<char>) -> Seq<Json> {
    match spec_lookup(j, key) {
        Some(f) => match f {
            Json::Arr(a) => a,
            _ => Seq::empty(),
        },
        None => Seq::empty(),
    }
}

/// The ABI type of a parameter or output, `string` where absent.
pub open spec fn spec_param_type(input: Json) -> Seq<char> {
    match spec_string_field(input, "type"@) {
        Some(t) => t,
        None => "string"@,
    }
}

/// The name of input `i`: its ABI name, or `param{i}` where absent or empty.
pub open spec fn spec_param_name(input: Json, i: nat) -> Seq<char> {
    match spec_string_field(input, "name"@) {
        Some(n) => if n.len() > 0 {
            n
        } else {
            "param"@ + spec_dec(i)
        },
        None => "param"@ + spec_dec(i),
    }
}

/// The name of output `i`: its ABI name, or `output{i}` where absent or
/// empty.
pub open spec fn spec_output_name(output: Json, i: nat) -> Seq<char> {
    match spec_string_field(output, "name"@) {
        Some(n) => if n.len() > 0 {
            n
        } else {
            "output"@ + spec_dec(i)
        },
        None => "output"@ + spec_dec(i),
    }
}

/// The query parameter input `i` becomes.
pub open spec fn spec_parameter(input: Json, i: nat) -> SpecParameter {
    SpecParameter {
        name: spec_param_name(input, i),
        location: "query"@,
        required: true,
        schema: spec_abi_schema(spec_param_type(input)),
        description: "Parameter of type "@ + spec_param_type(input),
    }
}

/// The query parameters of a `get` operation, one per input, in order.
pub open spec fn spec_parameters(ins: Seq<Json>) -> Seq<SpecParameter> {
    Seq::new(ins.len(), |i: int| spec_parameter(ins[i], i as nat))
}

/// Position of property `name` in `ps`, searching from position `i`.
pub open spec fn spec_prop_index_at(
    ps: Seq<(Seq<char>, SpecSchema)>,
    name: Seq<char>,
    i: int,
) -> Option<int>
    decreases ps.len() - i,
{
    if i < 0 || i >= ps.len() {
        None
    } else if ps[i].0 == name {
        Some(i)
    } else {
        spec_prop_index_at(ps, name, i + 1)
    }
}

/// `ps` with property `name` bound to `schema`: replaces an existing
/// binding, else appends.
pub open spec fn spec_prop_set(
    ps: Seq<(Seq<char>, SpecSchema)>,
    name: Seq<char>,
    schema: SpecSchema,
) -> Seq<(Seq<char>, SpecSchema)> {
    match spec_prop_index_at(ps, name, 0) {
        Some(i) => ps.update(i, (name, schema)),
        None => ps.push((name, schema)),
    }
}

/// The request body properties of the first `n` inputs.
pub open spec fn spec_request_props(ins: Seq<Json>, n: int) -> Seq<(Seq<char>, SpecSchema)>
    decreases n,
{
    if n <= 0 {
        Seq::empty()
    } else {
        spec_prop_set(
            spec_request_props(ins, n - 1),
            spec_param_name(ins[n - 1], (n - 1) as nat),
            spec_abi_schema(spec_param_type(ins[n - 1])),
        )
    }
}

/// The response body properties of the first `n` outputs.
pub open spec fn spec_response_props(outs: Seq<Json>, n: int) -> Seq<(Seq<char>, SpecSchema)>
    decreases n,
{
    if n <= 0 {
        Seq::empty()
    } else {
        spec_prop_set(
            spec_response_props(outs, n - 1),
            spec_output_name(outs[n - 1], (n - 1) as nat),
            spec_abi_schema(spec_param_type(outs[n - 1])),
        )
    }
}

/// The single `200` response of an operation: with an `application/json`
/// object of the outputs where there are any, without content otherwise.
pub open spec fn spec_response(outs: Seq<Json>) -> SpecResponse {
    if outs.len() > 0 {
        SpecResponse {
            description: "Successful response"@,
            content: Some(
                seq![
                    (
                        "application/json"@,
                        SpecContent {
                            schema: SpecSchema {
                                schema_type: "object"@,
                                items: Seq::empty(),
                                properties: Some(spec_response_props(outs, outs.len() as int)),
                            },
                        },
                    ),
                ],
            ),
        }
    } else {
        SpecResponse { description: "Successful response"@, content: None }
    }
}

/// The path of a contract function: group, contract name and function name
/// under `/contracts`.
pub open spec fn spec_path_of(
    cname: Seq<char>,
    group: Option<Seq<char>>,
    fname: Seq<char>,
) -> Seq<char> {
    match group {
        Some(g) => "/contracts/"@ + g + "/"@ + cname + "/"@ + fname,
        None => "/contracts/"@ + cname + "/"@ + fname,
    }
}

/// The operation a function entry synthesizes for contract `cname`.
pub open spec fn spec_operation(cname: Seq<char>, entry: Json) -> SpecOperation {
    let fname = spec_fname(entry);
    let sm = spec_mutability(entry);
    let method = spec_method_of(sm);
    let ins = spec_arr_field(entry, "inputs"@);
    let outs = spec_arr_field(entry, "outputs"@);
    let props = spec_request_props(ins, ins.len() as int);
    SpecOperation {
        summary: cname + " - "@ + fname,
        description: "Call "@ + fname + " function on "@ + cname + " contract ("@ + sm + ")"@,
        operation_id: cname + "_"@ + fname,
        responses: seq![("200"@, spec_response(outs))],
        parameters: if method == "get"@ && ins.len() > 0 {
            Some(spec_parameters(ins))
        } else {
            None
        },
        request_body: if method == "post"@ && props.len() > 0 {
            Some(
                SpecRequestBody {
                    required: true,
                    content: seq![
                        (
                            "application/json"@,
                            SpecContent {
                                schema: SpecSchema {
                                    schema_type: "object"@,
                                    items: Seq::empty(),
                                    properties: Some(props),
                                },
                            },
                        ),
                    ],
                },
            )
        } else {
            None
        },
    }
}

/// Position of `path` in the path map, searching from position `i`.
pub open spec fn spec_path_index_at(
    paths: Seq<(Seq<char>, Seq<(Seq<char>, SpecOperation)>)>,
    path: Seq<char>,
    i: int,
) -> Option<int>
    decreases paths.len() - i,
{
    if i < 0 || i >= paths.len() {
        None
    } else if paths[i].0 == path {
        Some(i)
    } else {
        spec_path_index_at(paths, path, i + 1)
    }
}

/// Position of `method` in a method map, searching from position `i`.
pub open spec fn spec_method_index_at(
    methods: Seq<(Seq<char>, SpecOperation)>,
    method: Seq<char>,
    i: int,
) -> Option<int>
    decreases methods.len() - i,
{
    if i < 0 || i >= methods.len() {
        None
    } else if methods[i].0 == method {
        Some(i)
    } else {
        spec_method_index_at(methods, method, i + 1)
    }
}

/// A method map with `method` bound to `op`: replaces an existing binding,
/// else appends.  A later operation on the same path and method thus wins.
pub open spec fn spec_method_set(
    methods: Seq<(Seq<char>, SpecOperation)>,
    method: Seq<char>,
    op: SpecOperation,
) -> Seq<(Seq<char>, SpecOperation)> {
    match spec_method_index_at(methods, method, 0) {
        Some(i) => methods.update(i, (method, op)),
        None => methods.push((method, op)),
    }
}

/// The path map with `op` under `path` and `method`.
pub open spec fn spec_add_operation(
    paths: Seq<(Seq<char>, Seq<(Seq<char>, SpecOperation)>)>,
    path: Seq<char>,
    method: Seq<char>,
    op: SpecOperation,
) -> Seq<(Seq<char>, Seq<(Seq<char>, SpecOperation)>)> {
    match spec_path_index_at(paths, path, 0) {
        Some(j) => paths.update(j, (path, spec_method_set(paths[j].1, method, op))),
        None => paths.push((path, seq![(method, op)])),
    }
}

/// The path map after the first `n` ABI entries of one contract: each
/// function entry adds its operation; every other entry adds nothing.
pub open spec fn spec_contract_paths(
    paths: Seq<(Seq<char>, Seq<(Seq<char>, SpecOperation)>)>,
    contract: SpecCollectedAbi,
    group: Option<Seq<char>>,
    n: int,
) -> Seq<(Seq<char>, Seq<(Seq<char>, SpecOperation)>)>
    decreases n,
{
    if n <= 0 {
        paths
    } else {
        let prev = spec_contract_paths(paths, contract, group, n - 1);
        let entry = contract.abi[n - 1];
        if spec_is_function(entry) {
            spec_add_operation(
                prev,
                spec_path_of(contract.name, group, spec_fname(entry)),
                spec_method_of(spec_mutability(entry)),
                spec_operation(contract.name, entry),
            )
        } else {
            prev
        }
    }
}

/// The path map after the first `n` contracts of one partition.
pub open spec fn spec_contracts_paths(
    paths: Seq<(Seq<char>, Seq<(Seq<char>, SpecOperation)>)>,
    contracts: Seq<SpecCollectedAbi>,
    group: Option<Seq<char>>,
    n: int,
) -> Seq<(Seq<char>, Seq<(Seq<char>, SpecOperation)>)>
    decreases n,
{
    if n <= 0 {
        paths
    } else {
        spec_contract_paths(
            spec_contracts_paths(paths, contracts, group, n - 1),
            contracts[n - 1],
            group,
            contracts[n - 1].abi.len() as int,
        )
    }
}

/// The path map after the first `n` groups.
pub open spec fn spec_grouped_paths(
    paths: Seq<(Seq<char>, Seq<(Seq<char>, SpecOperation)>)>,
    groups: Seq<(Seq<char>, Seq<SpecCollectedAbi>)>,
    n: int,
) -> Seq<(Seq<char>, Seq<(Seq<char>, SpecOperation)>)>
    decreases n,
{
    if n <= 0 {
        paths
    } else {
        spec_contracts_paths(
            spec_grouped_paths(paths, groups, n - 1),
            groups[n - 1].1,
            Some(groups[n - 1].0),
            groups[n - 1].1.len() as int,
        )
    }
}

/// The full synthesized document: the grouped contracts' operations first,
/// then the ungrouped ones, under fixed document-level fields.
pub open spec fn spec_synthesize(c: SpecCollection) -> SpecOpenAPI {
    let grouped_paths = spec_grouped_paths(Seq::empty(), c.grouped, c.grouped.len() as int);
    let all_paths = spec_contracts_paths(
        grouped_paths,
        c.ungrouped,
        None,
        c.ungrouped.len() as int,
    );
    SpecOpenAPI {
        openapi: "3.0.0"@,
        info: SpecInfo {
            title: "Solidity Contracts API"@,
            version: "1.0.0"@,
            description: "Auto-generated API documentation from Solidity contract ABIs"@,
        },
        paths: all_paths,
        schemas: Seq::empty(),
    }
}

/// A request property map over `n` inputs is empty exactly when `n` is.
pub proof fn lemma_request_props_len(ins: Seq<Json>, n: int)
    requires
        n >= 1,
    ensures
        spec_request_props(ins, n).len() >= 1,
    decreases n,
{
    if n > 1 {
        lemma_request_props_len(ins, n - 1);
    }
    let prev = spec_request_props(ins, n - 1);
    let name = spec_param_name(ins[n - 1], (n - 1) as nat);
    let schema = spec_abi_schema(spec_param_type(ins[n - 1]));
    assert(spec_request_props(ins, n) == spec_prop_set(prev, name, schema));
    match spec_prop_index_at(prev, name, 0) {
        Some(i) => {
            lemma_prop_index_props(prev, name);
            assert(spec_prop_set(prev, name, schema).len() == prev.len());
        },
        None => {
            assert(spec_prop_set(prev, name, schema).len() == prev.len() + 1);
        },
    }
}

/// What a successful property search means.
pub proof fn lemma_prop_index_props(ps: Seq<(Seq<char>, SpecSchema)>, name: Seq<char>)
    ensures
        match spec_prop_index_at(ps, name, 0) {
            Some(x) => 0 <= x < ps.len() && ps[x].0 == name,
            None => true,
        },
{
    lemma_prop_index_range(ps, name, 0);
}

/// What a successful property search means, from any starting position.
proof fn lemma_prop_index_range(ps: Seq<(Seq<char>, SpecSchema)>, name: Seq<char>, i: int)
    requires
        0 <= i <= ps.len(),
    ensures
        match spec_prop_index_at(ps, name, i) {
            Some(x) => i <= x < ps.len() && ps[x].0 == name,
            None => true,
        },
    decreases ps.len() - i,
{
    if i < ps.len() && ps[i].0 != name {
        lemma_prop_index_range(ps, name, i + 1);
    }
}

/// The method selection law: a `view` or `pure` function synthesizes a `get`
/// operation that carries its inputs as query parameters and no request
/// body; a function of any other state mutability synthesizes a `post`
/// operation that carries its inputs in a required request body and no query
/// parameters.
pub proof fn lemma_method_selection(cname: Seq<char>, entry: Json)
    ensures
        ({
            let sm = spec_mutability(entry);
            let op = spec_operation(cname, entry);
            let ins = spec_arr_field(entry, "inputs"@);
            &&& (sm == "view"@ || sm == "pure"@) ==> {
                &&& spec_method_of(sm) == "get"@
                &&& op.request_body is None
                &&& (ins.len() > 0 ==> op.parameters == Some(spec_parameters(ins)))
                &&& (ins.len() == 0 ==> op.parameters is None)
            }
            &&& !(sm == "view"@ || sm == "pure"@) ==> {
                &&& spec_method_of(sm) == "post"@
                &&& op.parameters is None
                &&& (ins.len() > 0 ==> (op.request_body matches Some(b) && b.required
                    && b.content == seq![
                    (
                        "application/json"@,
                        SpecContent {
                            schema: SpecSchema {
                                schema_type: "object"@,
                                items: Seq::empty(),
                                properties: Some(spec_request_props(ins, ins.len() as int)),
                            },
                        },
                    ),
                ]))
                &&& (ins.len() == 0 ==> op.request_body is None)
            }
        }),
{
    reveal_strlit("get");
    reveal_strlit("post");
    assert("get"@.len() == 3 && "post"@.len() == 4);
    let sm = spec_mutability(entry);
    let ins = spec_arr_field(entry, "inputs"@);
    if !(sm == "view"@ || sm == "pure"@) && ins.len() > 0 {
        lemma_request_props_len(ins, ins.len() as int);
    }
}

/// The string field `key` of `v`, or `default` where it is absent or not a
/// string.
fn string_field_or(v: &JsonValue, key: &str, default: &str) -> (r: String)
    ensures
        r@ == match spec_string_field(v@, key@) {
            Some(s) => s,
            None => default@,
        },
{
    match v.get(key) {
        Some(f) => match f.as_str() {
            Some(s) => String::from_str(s.as_str()),
            None => String::from_str(default),
        },
        None => String::from_str(default),
    }
}

/// The elements of the array field `key` of `v`, where present.
fn array_field<'a>(v: &'a JsonValue, key: &str) -> (r: Option<&'a Vec<JsonValue>>)
    ensures
        match r {
            Some(a) => a@.len() == spec_arr_field(v@, key@).len() && (forall|i: int|
                0 <= i < a@.len() ==> #[trigger] a@[i]@ == spec_arr_field(v@, key@)[i]),
            None => spec_arr_field(v@, key@) == Seq::<Json>::empty(),
        },
{
    match v.get(key) {
        Some(f) => match f.as_array() {
            Some(a) => Some(a),
            None => {
                proof {
                    assert(spec_arr_field(v@, key@) =~= Seq::<Json>::empty());
                }
                None
            },
        },
        None => {
            proof {
                assert(spec_arr_field(v@, key@) =~= Seq::<Json>::empty());
            }
            None
        },
    }
}

/// The name of input or output `i` under the fallback `prefix{i}`.
fn indexed_name(input: &JsonValue, i: usize, prefix: &str) -> (r: String)
    ensures
        r@ == match spec_string_field(input@, "name"@) {
            Some(n) => if n.len() > 0 {
                n
            } else {
                prefix@ + spec_dec(i as nat)
            },
            None => prefix@ + spec_dec(i as nat),
        },
{
    match input.get("name") {
        Some(f) => match f.as_str() {
            Some(s) => {
                if s.as_str().unicode_len() > 0 {
                    String::from_str(s.as_str())
                } else {
                    let mut r = String::from_str(prefix);
                    r.append(dec_string(i).as_str());
                    r
                }
            },
            None => {
                let mut r = String::from_str(prefix);
                r.append(dec_string(i).as_str());
                r
            },
        },
        None => {
            let mut r = String::from_str(prefix);
            r.append(dec_string(i).as_str());
            r
        },
    }
}

/// Bind property `name` to `schema`, replacing an existing binding.
fn set_prop(ps: &mut Vec<(String, OpenAPISchema)>, name: String, schema: OpenAPISchema)
    ensures
        prop_views(final(ps)@) == spec_prop_set(prop_views(old(ps)@), name@, schema@),
{
    proof {
        lemma_prop_views(ps@);
    }
    let ghost psv = prop_views(ps@);
    let n = ps.len();
    let mut k: usize = 0;
    while k < n
        invariant
            n == ps.len(),
            k <= n,
            *ps == *old(ps),
            psv == prop_views(ps@),
            psv.len() == n,
            forall|i: int| 0 <= i < n ==> #[trigger] psv[i] == (ps@[i].0@, ps@[i].1@),
            spec_prop_index_at(psv, name@, 0) == spec_prop_index_at(psv, name@, k as int),
        decreases n - k,
    {
        if str_eq(ps[k].0.as_str(), name.as_str()) {
            ps.remove(k);
            ps.insert(k, (name, schema));
            proof {
                lemma_prop_views(ps@);
                assert(prop_views(ps@) =~~= psv.update(k as int, (name@, schema@)));
            }
            return ;
        }
        k += 1;
    }
    ps.push((name, schema));
    proof {
        lemma_prop_views(ps@);
        assert(prop_views(ps@) =~~= psv.push((name@, schema@)));
    }
}

/// The models of a method map.
pub open spec fn method_views(ms: Seq<(String, OpenAPIPath)>) -> Seq<(Seq<char>, SpecOperation)> {
    ms.map_values(|q: (String, OpenAPIPath)| (q.0@, q.1@))
}

/// The models of a path map.
pub open spec fn path_views(ps: Seq<(String, Vec<(String, OpenAPIPath)>)>) -> Seq<
    (Seq<char>, Seq<(Seq<char>, SpecOperation)>),
> {
    ps.map_values(|p: (String, Vec<(String, OpenAPIPath)>)| (p.0@, method_views(p.1@)))
}

/// Bind `method` to `op` in a method map, replacing an existing binding.
fn set_method(ms: &mut Vec<(String, OpenAPIPath)>, method: String, op: OpenAPIPath)
    ensures
        method_views(final(ms)@) == spec_method_set(method_views(old(ms)@), method@, op@),
{
    let ghost msv = method_views(ms@);
    let n = ms.len();
    let mut k: usize = 0;
    while k < n
        invariant
            n == ms.len(),
            k <= n,
            *ms == *old(ms),
            msv == method_views(ms@),
            msv.len() == n,
            spec_method_index_at(msv, method@, 0) == spec_method_index_at(msv, method@, k as int),
        decreases n - k,
    {
        proof {
            assert(msv[k as int] == (ms@[k as int].0@, ms@[k as int].1@));
        }
        if str_eq(ms[k].0.as_str(), method.as_str()) {
            ms.remove(k);
            ms.insert(k, (method, op));
            proof {
                assert(method_views(ms@) =~~= msv.update(k as int, (method@, op@)));
            }
            return ;
        }
        k += 1;
    }
    ms.push((method, op));
    proof {
        assert(method_views(ms@) =~~= msv.push((method@, op@)));
    }
}

/// Put `op` under `path` and `method` in the path map.
fn add_operation(
    paths: &mut Vec<(String, Vec<(String, OpenAPIPath)>)>,
    path: String,
    method: String,
    op: OpenAPIPath,
)
    ensures
        path_views(final(paths)@) == spec_add_operation(
            path_views(old(paths)@),
            path@,
            method@,
            op@,
        ),
{
    let ghost pv = path_views(paths@);
    let n = paths.len();
    let mut k: usize = 0;
    while k < n
        invariant
            n == paths.len(),
            k <= n,
            *paths == *old(paths),
            pv == path_views(paths@),
            pv.len() == n,
            spec_path_index_at(pv, path@, 0) == spec_path_index_at(pv, path@, k as int),
        decreases n - k,
    {
        proof {
            assert(pv[k as int] == (paths@[k as int].0@, method_views(paths@[k as int].1@)));
        }
        if str_eq(paths[k].0.as_str(), path.as_str()) {
            let mut pair = paths.remove(k);
            set_method(&mut pair.1, method, op);
            paths.insert(k, pair);
            proof {
                assert(path_views(paths@) =~~= pv.update(
                    k as int,
                    (path@, spec_method_set(pv[k as int].1, method@, op@)),
                ));
            }
            return ;
        }
        k += 1;
    }
    let mut ms: Vec<(String, OpenAPIPath)> = Vec::new();
    ms.push((method, op));
    paths.push((path, ms));
    proof {
        assert(method_views(ms@) =~= seq![(method@, op@)]);
        assert(path_views(paths@) =~~= pv.push((path@, method_views(ms@))));
    }
}

/// Synthesize the operations of one contract's ABI into the path map, as
/// [`spec_contract_paths`] describes: one operation per function entry,
/// under the path and method its name, group and state mutability demand.
pub fn process_contract(
    paths: &mut Vec<(String, Vec<(String, OpenAPIPath)>)>,
    contract: &CollectedABI,
    group: Option<&String>,
)
    ensures
        path_views(final(paths)@) == spec_contract_paths(
            path_views(old(paths)@),
            contract@,
            match group {
                Some(g) => Some(g@),
                None => None,
            },
            contract@.abi.len() as int,
        ),
{
    let ghost groupv: Option<Seq<char>> = match group {
        Some(g) => Some(g@),
        None => None,
    };
    let ghost entries = contract@.abi;
    proof {
        crate::json::lemma_arr_views(contract.abi@);
    }
    let n = contract.abi.len();
    let mut e_idx: usize = 0;
    while e_idx < n
        invariant
            n == contract.abi.len(),
            e_idx <= n,
            groupv == match group {
                Some(g) => Some(g@),
                None => None,
            },
            entries == contract@.abi,
            entries.len() == n,
            forall|i: int| 0 <= i < n ==> #[trigger] entries[i] == contract.abi@[i]@,
            path_views(paths@) == spec_contract_paths(
                path_views(old(paths)@),
                contract@,
                groupv,
                e_idx as int,
            ),
        decreases n - e_idx,
    {
        let entry = &contract.abi[e_idx];
        let is_function = match entry.get("type") {
            Some(t) => match t.as_str() {
                Some(s) => str_eq(s.as_str(), "function"),
                None => false,
            },
            None => false,
        };
        if is_function {
            let ghost ev = entries[e_idx as int];
            let fname = string_field_or(entry, "name", "unknown");
            let sm = string_field_or(entry, "stateMutability", "nonpayable");
            let is_get = str_eq(sm.as_str(), "view") || str_eq(sm.as_str(), "pure");
            let method = if is_get {
                String::from_str("get")
            } else {
                String::from_str("post")
            };
            proof {
                assert(method@ == spec_method_of(spec_mutability(ev)));
            }
            let mut path = String::from_str("/contracts/");
            match group {
                Some(g) => {
                    path.append(g.as_str());
                    path.append("/");
                },
                None => {},
            }
            path.append(contract.contract_name.as_str());
            path.append("/");
            path.append(fname.as_str());
            proof {
                assert(ev == entry@);
                assert(fname@ == spec_fname(ev));
                assert(contract@.name == contract.contract_name@);
                match group {
                    Some(g) => {
                        assert(groupv == Some(g@));
                        assert(path@ =~= "/contracts/"@ + g@ + "/"@ + contract.contract_name@
                            + "/"@ + fname@);
                    },
                    None => {
                        assert(groupv is None);
                        assert(path@ =~= "/contracts/"@ + contract.contract_name@ + "/"@ + fname@);
                    },
                }
                assert(path@ =~= spec_path_of(contract@.name, groupv, spec_fname(ev)));
            }
            let mut parameters: Vec<OpenAPIParameter> = Vec::new();
            let mut request_properties: Vec<(String, OpenAPISchema)> = Vec::new();
            let ghost insv = spec_arr_field(ev, "inputs"@);
            match array_field(entry, "inputs") {
                Some(ins) => {
                    let m = ins.len();
                    let mut i: usize = 0;
                    proof {
                        assert(spec_parameters(insv).take(0) =~= Seq::<SpecParameter>::empty());
                        assert(prop_views(request_properties@) =~= Seq::<
                            (Seq<char>, SpecSchema),
                        >::empty());
                    }
                    while i < m
                        invariant
                            m == ins.len(),
                            i <= m,
                            insv.len() == m,
                            forall|j: int| 0 <= j < m ==> #[trigger] ins@[j]@ == insv[j],
                            is_get ==> parameters@.map_values(|q: OpenAPIParameter| q@)
                                == spec_parameters(insv).take(i as int),
                            !is_get ==> prop_views(request_properties@) == spec_request_props(
                                insv,
                                i as int,
                            ),
                            !is_get ==> parameters@.len() == 0,
                            is_get ==> request_properties@.len() == 0,
                        decreases m - i,
                    {
                        let input = &ins[i];
                        let pname = indexed_name(input, i, "param");
                        let ptype = string_field_or(input, "type", "string");
                        let schema = abi_type_to_openapi_schema(ptype.as_str());
                        proof {
                            assert(pname@ == spec_param_name(insv[i as int], i as nat));
                            assert(schema@ == spec_abi_schema(spec_param_type(insv[i as int])));
                        }
                        if is_get {
                            let mut desc = String::from_str("Parameter of type ");
                            desc.append(ptype.as_str());
                            let ghost old_params = parameters@.map_values(
                                |q: OpenAPIParameter| q@,
                            );
                            parameters.push(
                                OpenAPIParameter {
                                    name: pname,
                                    location: String::from_str("query"),
                                    required: true,
                                    schema,
                                    description: desc,
                                },
                            );
                            proof {
                                assert(parameters@.map_values(|q: OpenAPIParameter| q@)
                                    =~= old_params.push(spec_parameter(insv[i as int], i as nat)));
                                assert(spec_parameters(insv).take(i + 1) =~= spec_parameters(
                                    insv,
                                ).take(i as int).push(spec_parameter(insv[i as int], i as nat)));
                            }
                        } else {
                            set_prop(&mut request_properties, pname, schema);
                        }
                        i += 1;
                    }
                    proof {
                        assert(spec_parameters(insv).take(m as int) =~= spec_parameters(insv));
                    }
                },
                None => {
                    proof {
                        assert(spec_parameters(insv) =~= Seq::<SpecParameter>::empty());
                        assert(prop_views(request_properties@) =~= Seq::<
                            (Seq<char>, SpecSchema),
                        >::empty());
                    }
                },
            }
            let mut responses: Vec<(String, OpenAPIResponse)> = Vec::new();
            let ghost outsv = spec_arr_field(ev, "outputs"@);
            let response = match array_field(entry, "outputs") {
                Some(outs) if outs.len() > 0 => {
                    let m = outs.len();
                    let mut response_properties: Vec<(String, OpenAPISchema)> = Vec::new();
                    let mut i: usize = 0;
                    proof {
                        assert(prop_views(response_properties@) =~= Seq::<
                            (Seq<char>, SpecSchema),
                        >::empty());
                    }
                    while i < m
                        invariant
                            m == outs.len(),
                            i <= m,
                            outsv.len() == m,
                            forall|j: int| 0 <= j < m ==> #[trigger] outs@[j]@ == outsv[j],
                            prop_views(response_properties@) == spec_response_props(
                                outsv,
                                i as int,
                            ),
                        decreases m - i,
                    {
                        let output = &outs[i];
                        let oname = indexed_name(output, i, "output");
                        let otype = string_field_or(output, "type", "string");
                        let oschema = abi_type_to_openapi_schema(otype.as_str());
                        proof {
                            assert(oname@ == spec_output_name(outsv[i as int], i as nat));
                            assert(oschema@ == spec_abi_schema(spec_param_type(outsv[i as int])));
                        }
                        set_prop(&mut response_properties, oname, oschema);
                        i += 1;
                    }
                    let mut content: Vec<(String, OpenAPIContent)> = Vec::new();
                    content.push(
                        (
                            String::from_str("application/json"),
                            OpenAPIContent {
                                schema: OpenAPISchema {
                                    schema_type: String::from_str("object"),
                                    items: None,
                                    properties: Some(response_properties),
                                },
                            },
                        ),
                    );
                    let r = OpenAPIResponse {
                        description: String::from_str("Successful response"),
                        content: Some(content),
                    };
                    proof {
                        assert(r@.content->Some_0 =~= spec_response(outsv).content->Some_0);
                        assert(r@ == spec_response(outsv));
                    }
                    r
                },
                _ => {
                    let r = OpenAPIResponse {
                        description: String::from_str("Successful response"),
                        content: None,
                    };
                    proof {
                        assert(outsv.len() == 0);
                        assert(r@ == spec_response(outsv));
                    }
                    r
                },
            };
            responses.push((String::from_str("200"), response));
            let mut summary = String::from_str(contract.contract_name.as_str());
            summary.append(" - ");
            summary.append(fname.as_str());
            let mut description = String::from_str("Call ");
            description.append(fname.as_str());
            description.append(" function on ");
            description.append(contract.contract_name.as_str());
            description.append(" contract (");
            description.append(sm.as_str());
            description.append(")");
            let mut operation_id = String::from_str(contract.contract_name.as_str());
            operation_id.append("_");
            operation_id.append(fname.as_str());
            let has_params = parameters.len() > 0;
            let has_props = request_properties.len() > 0;
            let op = OpenAPIPath {
                summary,
                description,
                operation_id,
                responses,
                parameters: if has_params {
                    Some(parameters)
                } else {
                    None
                },
                request_body: if has_props {
                    let mut content: Vec<(String, OpenAPIContent)> = Vec::new();
                    content.push(
                        (
                            String::from_str("application/json"),
                            OpenAPIContent {
                                schema: OpenAPISchema {
                                    schema_type: String::from_str("object"),
                                    items: None,
                                    properties: Some(request_properties),
                                },
                            },
                        ),
                    );
                    Some(OpenAPIRequestBody { required: true, content })
                } else {
                    None
                },
            };
            proof {
                let sop = spec_operation(contract@.name, ev);
                reveal_strlit("get");
                reveal_strlit("post");
                assert("get"@.len() == 3 && "post"@.len() == 4);
                assert(op@.responses =~= sop.responses);
                assert(op@.summary =~= sop.summary);
                assert(op@.description =~= sop.description);
                assert(op@.operation_id =~= sop.operation_id);
                if is_get {
                    if has_params {
                        assert(op@.parameters->Some_0 =~= sop.parameters->Some_0);
                    } else {
                        assert(spec_parameters(spec_arr_field(ev, "inputs"@)).len() == 0);
                    }
                    assert(op@.request_body == sop.request_body);
                } else {
                    if has_props {
                        assert(op@.request_body->Some_0.content =~= sop.request_body->Some_0.content);
                    } else {
                        assert(spec_request_props(
                            spec_arr_field(ev, "inputs"@),
                            spec_arr_field(ev, "inputs"@).len() as int,
                        ).len() == 0);
                    }
                    assert(op@.parameters == sop.parameters);
                }
                assert(op@ == sop);
            }
            add_operation(paths, path, method, op);
        }
        e_idx += 1;
    }
}

/// Synthesize the whole OpenAPI document out of a collection, as
/// [`spec_synthesize`] describes: every contract function of every partition
/// becomes one operation, and the document-level fields are fixed.
pub fn generate_openapi_spec(collection: &ABICollection) -> (r: OpenAPISpec)
    ensures
        r@ == spec_synthesize(collection@),
{
    let ghost cv = collection@;
    let mut paths: Vec<(String, Vec<(String, OpenAPIPath)>)> = Vec::new();
    proof {
        assert(path_views(paths@) =~= Seq::<(Seq<char>, Seq<(Seq<char>, SpecOperation)>)>::empty());
    }
    let gn = collection.grouped.len();
    let mut j: usize = 0;
    while j < gn
        invariant
            gn == collection.grouped.len(),
            j <= gn,
            cv == collection@,
            cv.grouped.len() == gn,
            path_views(paths@) == spec_grouped_paths(Seq::empty(), cv.grouped, j as int),
        decreases gn - j,
    {
        proof {
            assert(cv.grouped[j as int] == (
                collection.grouped@[j as int].0@,
                collection.grouped@[j as int].1@.map_values(|c: CollectedABI| c@),
            ));
        }
        let contracts_n = collection.grouped[j].1.len();
        let ghost before = path_views(paths@);
        let ghost gcontracts = cv.grouped[j as int].1;
        let ghost glabel = cv.grouped[j as int].0;
        let mut t: usize = 0;
        while t < contracts_n
            invariant
                j < gn,
                gn == collection.grouped.len(),
                contracts_n == collection.grouped@[j as int].1.len(),
                t <= contracts_n,
                cv == collection@,
                cv.grouped.len() == gn,
                gcontracts == cv.grouped[j as int].1,
                glabel == cv.grouped[j as int].0,
                gcontracts.len() == contracts_n,
                gcontracts == collection.grouped@[j as int].1@.map_values(|c: CollectedABI| c@),
                glabel == collection.grouped@[j as int].0@,
                path_views(paths@) == spec_contracts_paths(
                    before,
                    gcontracts,
                    Some(glabel),
                    t as int,
                ),
            decreases contracts_n - t,
        {
            proof {
                assert(gcontracts[t as int] == collection.grouped@[j as int].1@[t as int]@);
            }
            process_contract(
                &mut paths,
                &collection.grouped[j].1[t],
                Some(&collection.grouped[j].0),
            );
            t += 1;
        }
        j += 1;
    }
    let un = collection.ungrouped.len();
    let ghost before_un = path_views(paths@);
    let mut t: usize = 0;
    while t < un
        invariant
            un == collection.ungrouped.len(),
            t <= un,
            cv == collection@,
            cv.ungrouped.len() == un,
            before_un == spec_grouped_paths(Seq::empty(), cv.grouped, cv.grouped.len() as int),
            path_views(paths@) == spec_contracts_paths(before_un, cv.ungrouped, None, t as int),
        decreases un - t,
    {
        proof {
            assert(cv.ungrouped[t as int] == collection.ungrouped@[t as int]@);
        }
        process_contract(&mut paths, &collection.ungrouped[t], None);
        t += 1;
    }
    let r = OpenAPISpec {
        openapi: String::from_str("3.0.0"),
        info: OpenAPIInfo {
            title: String::from_str("Solidity Contracts API"),
            version: String::from_str("1.0.0"),
            description: String::from_str(
                "Auto-generated API documentation from Solidity contract ABIs",
            ),
        },
        paths,
        components: OpenAPIComponents { schemas: Vec::new() },
    };
    proof {
        assert(r@.schemas =~= Seq::<(Seq<char>, SpecSchema)>::empty());
        assert(r@.paths == spec_synthesize(cv).paths);
        assert(r@ == spec_synthesize(cv));
    }
    r
}

} // verus!
