//! Protocol negotiation and result framing for the built-in MCP servers.
//!
//! Both stdio servers go through this module, so that the protocol versions,
//! the discovery result and the rules for `resultType` cannot drift apart.

use vstd::prelude::*;
use crate::json::{Json, JsonModel, JsonObject};
use crate::json;
use crate::text;

verus! {

pub const MCP_PROTOCOL_2026_07_28: &'static str = "2026-07-28";

pub const MCP_PROTOCOL_2025_11_25: &'static str = "2025-11-25";

pub const MCP_PROTOCOL_2025_06_18: &'static str = "2025-06-18";

pub const MCP_PROTOCOL_2025_03_26: &'static str = "2025-03-26";

pub const MCP_SUPPORTED_PROTOCOL_VERSIONS: [&'static str; 4] = [
    MCP_PROTOCOL_2026_07_28,
    MCP_PROTOCOL_2025_11_25,
    MCP_PROTOCOL_2025_06_18,
    MCP_PROTOCOL_2025_03_26,
];

/// The supported protocol versions, the modern one first.
pub open spec fn supported_versions() -> Seq<Seq<char>> {
    seq![
        MCP_PROTOCOL_2026_07_28@,
        MCP_PROTOCOL_2025_11_25@,
        MCP_PROTOCOL_2025_06_18@,
        MCP_PROTOCOL_2025_03_26@,
    ]
}

/// Whether `version` is supported.
pub open spec fn supported(version: Seq<char>) -> bool {
    supported_versions().contains(version)
}

/// Whether `version` is a supported version that `initialize` negotiates.
pub open spec fn legacy(version: Seq<char>) -> bool {
    supported(version) && version != MCP_PROTOCOL_2026_07_28@
}

/// The negotiated state of one stdio connection. The modern protocol is chosen
/// by the metadata of each request and does not rewrite this state;
/// `initialize` negotiates between the legacy versions only.
#[derive(Debug, Clone, Copy)]
pub struct McpProtocolSession {
    negotiated_version: &'static str,
}

impl View for McpProtocolSession {
    type V = Seq<char>;

    /// The version that the session speaks.
    closed spec fn view(&self) -> Seq<char> {
        self.negotiated_version@
    }
}

impl Default for McpProtocolSession {
    fn default() -> (r: Self)
        ensures
            r@ == MCP_PROTOCOL_2025_11_25@,
    {
        McpProtocolSession { negotiated_version: MCP_PROTOCOL_2025_11_25 }
    }
}

/// The version that `initialize` with `params` settles on.
pub open spec fn initialized_version(params: JsonModel) -> Seq<char> {
    match params.member("protocolVersion"@).text() {
        Some(requested) => if legacy(requested) {
            requested
        } else {
            MCP_PROTOCOL_2025_11_25@
        },
        None => MCP_PROTOCOL_2025_11_25@,
    }
}

/// An error of a request, by its code and its message.
pub open spec fn request_error(code: Seq<char>, message: Seq<char>) -> JsonModel {
    JsonModel::Object(
        map!["code"@ => JsonModel::Number(code), "message"@ => JsonModel::Text(message)],
    )
}

/// The supported versions as a JSON array.
pub open spec fn supported_array() -> JsonModel {
    JsonModel::Array(supported_versions().map_values(|version: Seq<char>| JsonModel::Text(version)))
}

/// The error for a request that asks for the version `requested`, which is not
/// supported.
pub open spec fn unsupported_version(requested: Seq<char>) -> JsonModel {
    JsonModel::Object(
        map![
            "code"@ => JsonModel::Number("-32022"@),
            "message"@ => JsonModel::Text("Unsupported protocol version"@),
            "data"@ => JsonModel::Object(map![
                "supported"@ => supported_array(),
                "requested"@ => JsonModel::Text(requested),
            ]),
        ],
    )
}

/// The version of one request with `params` in a session that speaks
/// `session`, or the error that answers it.
pub open spec fn request_version(session: Seq<char>, params: JsonModel) -> Result<
    Seq<char>,
    JsonModel,
> {
    match params.get("_meta"@) {
        None => Ok(session),
        Some(meta) => match meta.get("io.modelcontextprotocol/protocolVersion"@) {
            None => Ok(session),
            Some(version) => match version.text() {
                None => Err(request_error("-32602"@, "Invalid protocol version metadata"@)),
                Some(requested) => if !supported(requested) {
                    Err(unsupported_version(requested))
                } else if requested == MCP_PROTOCOL_2026_07_28@ && !(meta.member(
                    "io.modelcontextprotocol/clientCapabilities"@,
                ) is Object) {
                    Err(request_error("-32602"@, "Missing or invalid client capabilities"@))
                } else {
                    Ok(requested)
                },
            },
        },
    }
}

/// A result as a session that speaks `version` answers it: an object says
/// `resultType` in the modern protocol and does not in a legacy one; anything
/// else is left alone.
pub open spec fn completed(version: Seq<char>, result: JsonModel) -> JsonModel {
    match result {
        JsonModel::Object(members) => if version == MCP_PROTOCOL_2026_07_28@ {
            JsonModel::Object(members.insert("resultType"@, JsonModel::Text("complete"@)))
        } else {
            JsonModel::Object(members.remove("resultType"@))
        },
        _ => result,
    }
}

/// The members of an object; none of null.
pub open spec fn members_or_none(value: JsonModel) -> Map<Seq<char>, JsonModel> {
    match value {
        JsonModel::Object(members) => members,
        _ => Map::empty(),
    }
}

/// The members of an object, with those that say how long a client may keep
/// it.
pub open spec fn with_cache_fields(members: Map<Seq<char>, JsonModel>) -> Map<
    Seq<char>,
    JsonModel,
> {
    members.insert("ttlMs"@, JsonModel::Number("0"@)).insert(
        "cacheScope"@,
        JsonModel::Text("private"@),
    )
}

/// The result of a list request as a session that speaks `version` answers it.
pub open spec fn completed_list(version: Seq<char>, result: JsonModel) -> JsonModel {
    if version == MCP_PROTOCOL_2026_07_28@ {
        completed(version, JsonModel::Object(with_cache_fields(members_or_none(result))))
    } else {
        completed(version, result)
    }
}

/// The result of a discovery request.
pub open spec fn discovered(
    capabilities: JsonModel,
    server_name: Seq<char>,
    server_version: Seq<char>,
    instructions: Seq<char>,
) -> JsonModel {
    JsonModel::Object(
        map![
            "resultType"@ => JsonModel::Text("complete"@),
            "supportedVersions"@ => supported_array(),
            "capabilities"@ => capabilities,
            "instructions"@ => JsonModel::Text(instructions),
            "ttlMs"@ => JsonModel::Number("0"@),
            "cacheScope"@ => JsonModel::Text("private"@),
            "_meta"@ => JsonModel::Object(map![
                "io.modelcontextprotocol/serverInfo"@ => JsonModel::Object(map![
                    "name"@ => JsonModel::Text(server_name),
                    "version"@ => JsonModel::Text(server_version),
                ]),
            ]),
        ],
    )
}

/// The supported version that reads `requested`.
fn find_supported(requested: &str) -> (r: Option<&'static str>)
    ensures
        match r {
            Some(version) => supported(requested@) && version@ == requested@,
            None => !supported(requested@),
        },
{
    let mut i: usize = 0;
    proof {
        lemma_supported_versions();
    }
    while i < MCP_SUPPORTED_PROTOCOL_VERSIONS.len()
        invariant
            i <= 4,
            text::views(MCP_SUPPORTED_PROTOCOL_VERSIONS@) == supported_versions(),
            forall|j: int| 0 <= j < i ==> #[trigger] supported_versions()[j] != requested@,
        decreases 4 - i,
    {
        let version = MCP_SUPPORTED_PROTOCOL_VERSIONS[i];
        assert(version@ == supported_versions()[i as int]);
        if text::str_eq(version, requested) {
            return Some(version);
        }
        i += 1;
    }
    None
}

proof fn lemma_supported_versions()
    ensures
        text::views(MCP_SUPPORTED_PROTOCOL_VERSIONS@) == supported_versions(),
{
    assert(text::views(MCP_SUPPORTED_PROTOCOL_VERSIONS@) =~= supported_versions());
}

/// The array of the supported versions.
fn supported_json() -> (r: Json)
    ensures
        r@ == supported_array(),
{
    let r = Json::text_array(&MCP_SUPPORTED_PROTOCOL_VERSIONS);
    proof {
        assert(json::text_items(MCP_SUPPORTED_PROTOCOL_VERSIONS@) =~= supported_versions().map_values(
            |version: Seq<char>| JsonModel::Text(version),
        ));
    }
    r
}

/// An error of a request.
fn request_error_json(code: &str, message: &str) -> (r: Json)
    ensures
        r@ == request_error(code@, message@),
{
    let mut error = JsonObject::new();
    error.insert("code", Json::number(code));
    error.insert("message", Json::text(message));
    proof {
        assert(error@ =~= map!["code"@ => JsonModel::Number(code@), "message"@ => JsonModel::Text(message@)]);
    }
    Json::Object(error)
}

impl McpProtocolSession {
    /// Settles the version of the session: the one that `params` ask for, where
    /// it is a supported legacy version.
    pub fn negotiate_initialize(&mut self, params: &Json) -> (r: &'static str)
        ensures
            r@ == initialized_version(params@),
            final(self)@ == initialized_version(params@),
    {
        let mut version: &'static str = MCP_PROTOCOL_2025_11_25;
        if let Some(requested) = params.get_str("protocolVersion") {
            if let Some(supported) = find_supported(requested) {
                if !text::str_eq(supported, MCP_PROTOCOL_2026_07_28) {
                    version = supported;
                }
            }
        }
        self.negotiated_version = version;
        self.negotiated_version
    }

    /// The session for one request. Its metadata override the version of this
    /// request only, never that of the session.
    pub fn for_request(&self, params: &Json) -> (r: Result<Self, Json>)
        ensures
            match r {
                Ok(session) => request_version(self@, params@) == Ok::<Seq<char>, JsonModel>(session@),
                Err(error) => request_version(self@, params@) == Err::<Seq<char>, JsonModel>(error@),
            },
    {
        let Some(meta) = params.get("_meta") else {
            return Ok(*self);
        };
        let Some(version) = meta.get("io.modelcontextprotocol/protocolVersion") else {
            return Ok(*self);
        };
        let Some(requested) = version.as_str() else {
            return Err(request_error_json("-32602", "Invalid protocol version metadata"));
        };
        let Some(selected) = find_supported(requested) else {
            let mut data = JsonObject::new();
            data.insert("supported", supported_json());
            data.insert("requested", Json::text(requested));
            let ghost data_members = data@;
            let mut error = JsonObject::new();
            error.insert("code", Json::number("-32022"));
            error.insert("message", Json::text("Unsupported protocol version"));
            error.insert("data", Json::Object(data));
            proof {
                assert(data_members =~= map![
                    "supported"@ => supported_array(),
                    "requested"@ => JsonModel::Text(requested@),
                ]);
                assert(error@ =~= unsupported_version(requested@)->Object_0);
            }
            return Err(Json::Object(error));
        };
        if text::str_eq(selected, MCP_PROTOCOL_2026_07_28) {
            let capable = match meta.get("io.modelcontextprotocol/clientCapabilities") {
                Some(capabilities) => capabilities.is_object(),
                None => false,
            };
            if !capable {
                return Err(request_error_json("-32602", "Missing or invalid client capabilities"));
            }
        }
        Ok(McpProtocolSession { negotiated_version: selected })
    }

    /// Whether the session speaks the modern protocol.
    pub fn is_modern(&self) -> (r: bool)
        ensures
            r == (self@ == MCP_PROTOCOL_2026_07_28@),
    {
        text::str_eq(self.negotiated_version, MCP_PROTOCOL_2026_07_28)
    }

    /// Frames the result of a list request. In the modern protocol only an
    /// object or null can take the members that this adds.
    pub fn complete_list_result(&self, result: Json) -> (r: Json)
        requires
            self@ == MCP_PROTOCOL_2026_07_28@ ==> result@ is Object || result@ is Null,
        ensures
            r@ == completed_list(self@, result@),
    {
        if self.is_modern() {
            let mut members = match result {
                Json::Object(members) => members,
                _ => JsonObject::new(),
            };
            members.insert("ttlMs", Json::number("0"));
            members.insert("cacheScope", Json::text("private"));
            self.complete_result(Json::Object(members))
        } else {
            self.complete_result(result)
        }
    }

    /// The version that the session speaks.
    pub fn negotiated_version(&self) -> (r: &'static str)
        ensures
            r@ == self@,
    {
        self.negotiated_version
    }

    /// Frames a result.
    pub fn complete_result(&self, result: Json) -> (r: Json)
        ensures
            r@ == completed(self@, result@),
    {
        match result {
            Json::Object(members) => {
                let mut members = members;
                if self.is_modern() {
                    members.insert("resultType", Json::text("complete"));
                } else {
                    members.remove("resultType");
                }
                Json::Object(members)
            },
            other => other,
        }
    }
}

/// The result of a discovery request.
pub fn discover_result(
    capabilities: Json,
    server_name: &str,
    server_version: &str,
    instructions: &str,
) -> (r: Json)
    ensures
        r@ == discovered(capabilities@, server_name@, server_version@, instructions@),
{
    let mut info = JsonObject::new();
    info.insert("name", Json::text(server_name));
    info.insert("version", Json::text(server_version));
    let ghost info_members = info@;
    let mut meta = JsonObject::new();
    meta.insert("io.modelcontextprotocol/serverInfo", Json::Object(info));
    let ghost meta_members = meta@;
    let mut result = JsonObject::new();
    result.insert("resultType", Json::text("complete"));
    result.insert("supportedVersions", supported_json());
    result.insert("capabilities", capabilities);
    result.insert("instructions", Json::text(instructions));
    result.insert("ttlMs", Json::number("0"));
    result.insert("cacheScope", Json::text("private"));
    result.insert("_meta", Json::Object(meta));
    proof {
        assert(info_members =~= map![
            "name"@ => JsonModel::Text(server_name@),
            "version"@ => JsonModel::Text(server_version@),
        ]);
        assert(meta_members =~= map![
            "io.modelcontextprotocol/serverInfo"@ => JsonModel::Object(info_members),
        ]);
        assert(result@ =~= discovered(
            capabilities@,
            server_name@,
            server_version@,
            instructions@,
        )->Object_0);
    }
    Json::Object(result)
}

// ---------------------------------------------------------------------------
// Laws
// ---------------------------------------------------------------------------

/// `initialize` settles on a legacy version, whatever it is asked for, and on
/// the one that it is asked for where that is a legacy version.
pub proof fn initialize_settles_on_a_legacy_version(params: JsonModel)
    ensures
        legacy(initialized_version(params)),
        params.member("protocolVersion"@).text() matches Some(requested) ==> (legacy(requested)
            ==> initialized_version(params) == requested),
{
    lemma_modern_is_no_legacy_version();
    assert(supported_versions()[1] == MCP_PROTOCOL_2025_11_25@);
}

/// The modern version differs from the one that a session starts with.
proof fn lemma_modern_is_no_legacy_version()
    ensures
        MCP_PROTOCOL_2026_07_28@ != MCP_PROTOCOL_2025_11_25@,
{
    reveal_strlit("2026-07-28");
    reveal_strlit("2025-11-25");
    assert(MCP_PROTOCOL_2026_07_28@[3] == '6');
    assert(MCP_PROTOCOL_2025_11_25@[3] == '5');
}

/// A request without version metadata is served in the version of the session;
/// one with it, in the version that it names, or not at all.
pub proof fn metadata_alone_override_the_version(session: Seq<char>, params: JsonModel)
    ensures
        params.member("_meta"@).get("io.modelcontextprotocol/protocolVersion"@) is None
            ==> request_version(session, params) == Ok::<Seq<char>, JsonModel>(session),
        params.member("_meta"@).get("io.modelcontextprotocol/protocolVersion"@) matches Some(
            version,
        ) ==> (request_version(session, params) matches Ok(served) ==> version.text() == Some(
            served,
        )),
        supported(session) ==> (request_version(session, params) matches Ok(served) ==> supported(
            served,
        )),
{
}

/// In a legacy session a request is served in the modern protocol only where
/// its metadata ask for it and declare the client's capabilities.
pub proof fn modern_requests_declare_capabilities(session: Seq<char>, params: JsonModel)
    requires
        legacy(session),
        request_version(session, params) == Ok::<Seq<char>, JsonModel>(MCP_PROTOCOL_2026_07_28@),
    ensures
        params.member("_meta"@).member("io.modelcontextprotocol/protocolVersion"@)
            == JsonModel::Text(MCP_PROTOCOL_2026_07_28@),
        params.member("_meta"@).member("io.modelcontextprotocol/clientCapabilities"@) is Object,
{
}

/// The result of a modern session says that it is complete, that of a legacy
/// session does not say its type, and no other member is touched.
pub proof fn framing_touches_the_result_type_alone(
    version: Seq<char>,
    members: Map<Seq<char>, JsonModel>,
    name: Seq<char>,
)
    ensures
        completed(version, JsonModel::Object(members)).get("resultType"@) == (if version
            == MCP_PROTOCOL_2026_07_28@ {
            Some(JsonModel::Text("complete"@))
        } else {
            None
        }),
        name != "resultType"@ ==> completed(version, JsonModel::Object(members)).get(name)
            == JsonModel::Object(members).get(name),
{
}

/// To frame a result again, for the same version or for another, gives what
/// framing it once for that version gives.
pub proof fn framing_again_replaces_the_frame(
    first: Seq<char>,
    second: Seq<char>,
    result: JsonModel,
)
    ensures
        completed(second, completed(first, result)) == completed(second, result),
{
    if let JsonModel::Object(members) = result {
        let kind = JsonModel::Text("complete"@);
        let name = "resultType"@;
        assert(members.insert(name, kind).insert(name, kind) =~= members.insert(name, kind));
        assert(members.remove(name).insert(name, kind) =~= members.insert(name, kind));
        assert(members.insert(name, kind).remove(name) =~= members.remove(name));
        assert(members.remove(name).remove(name) =~= members.remove(name));
    }
}

/// The cache members are of the modern protocol: a list result has them there,
/// and in a legacy session it is framed as any other result.
pub proof fn cache_members_are_versioned(version: Seq<char>, result: JsonModel)
    ensures
        version == MCP_PROTOCOL_2026_07_28@ ==> {
            &&& completed_list(version, result).get("ttlMs"@) == Some(JsonModel::Number("0"@))
            &&& completed_list(version, result).get("cacheScope"@) == Some(
                JsonModel::Text("private"@),
            )
            &&& completed_list(version, result).get("resultType"@) == Some(
                JsonModel::Text("complete"@),
            )
        },
        version != MCP_PROTOCOL_2026_07_28@ ==> completed_list(version, result) == completed(
            version,
            result,
        ),
        version != MCP_PROTOCOL_2026_07_28@ ==> completed_list(version, result).get("ttlMs"@)
            == result.get("ttlMs"@) && completed_list(version, result).get("cacheScope"@)
            == result.get("cacheScope"@),
{
    lemma_frame_names();
}

/// The names of the members that framing adds differ.
proof fn lemma_frame_names()
    ensures
        "ttlMs"@ != "cacheScope"@,
        "ttlMs"@ != "resultType"@,
        "cacheScope"@ != "resultType"@,
{
    reveal_strlit("ttlMs");
    reveal_strlit("cacheScope");
    reveal_strlit("resultType");
    assert("ttlMs"@.len() == 5);
    assert("cacheScope"@[0] == 'c');
    assert("resultType"@[0] == 'r');
}

/// The result of a discovery request is framed for the modern protocol as it
/// stands: to frame it as a list result changes nothing.
pub proof fn discovery_is_framed_for_the_modern_protocol(
    capabilities: JsonModel,
    server_name: Seq<char>,
    server_version: Seq<char>,
    instructions: Seq<char>,
)
    ensures
        ({
            let result = discovered(capabilities, server_name, server_version, instructions);
            completed_list(MCP_PROTOCOL_2026_07_28@, result) == result
        }),
{
    reveal_strlit("resultType");
    reveal_strlit("supportedVersions");
    reveal_strlit("capabilities");
    reveal_strlit("instructions");
    reveal_strlit("ttlMs");
    reveal_strlit("cacheScope");
    reveal_strlit("_meta");
    lemma_frame_names();
    let result = discovered(capabilities, server_name, server_version, instructions);
    let members = result->Object_0;
    assert("_meta"@[0] != "ttlMs"@[0]);
    assert("supportedVersions"@.len() == 17 && "capabilities"@.len() == 12 && "instructions"@.len()
        == 12 && "resultType"@.len() == 10 && "cacheScope"@.len() == 10 && "ttlMs"@.len() == 5
        && "_meta"@.len() == 5);
    assert(members["resultType"@] == JsonModel::Text("complete"@));
    assert(members["ttlMs"@] == JsonModel::Number("0"@));
    assert(members["cacheScope"@] == JsonModel::Text("private"@));
    assert(with_cache_fields(members).insert("resultType"@, JsonModel::Text("complete"@))
        =~= members);
}

/// Four versions are supported, and three of them are legacy.
pub proof fn four_versions_are_supported(version: Seq<char>)
    ensures
        supported(version) <==> version == "2026-07-28"@ || version == "2025-11-25"@ || version
            == "2025-06-18"@ || version == "2025-03-26"@,
        legacy(version) <==> version == "2025-11-25"@ || version == "2025-06-18"@ || version
            == "2025-03-26"@,
{
    reveal_strlit("2026-07-28");
    reveal_strlit("2025-11-25");
    reveal_strlit("2025-06-18");
    reveal_strlit("2025-03-26");
    let versions = supported_versions();
    assert(versions[0] == "2026-07-28"@ && versions[1] == "2025-11-25"@ && versions[2]
        == "2025-06-18"@ && versions[3] == "2025-03-26"@);
    assert("2026-07-28"@[3] == '6' && "2025-11-25"@[3] == '5' && "2025-06-18"@[3] == '5'
        && "2025-03-26"@[3] == '5');
}

/// `initialize` settles on the newest legacy version wherever it is not asked for
/// a legacy version by name.
pub proof fn initialize_falls_back_to_the_newest_legacy_version(params: JsonModel)
    ensures
        params.member("protocolVersion"@) == JsonModel::Text("2025-06-18"@) ==> initialized_version(
            params,
        ) == "2025-06-18"@,
        params.member("protocolVersion"@) == JsonModel::Text("2025-03-26"@) ==> initialized_version(
            params,
        ) == "2025-03-26"@,
        params.member("protocolVersion"@) != JsonModel::Text("2025-06-18"@) && params.member(
            "protocolVersion"@,
        ) != JsonModel::Text("2025-03-26"@) ==> initialized_version(params) == "2025-11-25"@,
{
    if let Some(requested) = params.member("protocolVersion"@).text() {
        four_versions_are_supported(requested);
    }
}

/// Every request with version metadata is answered by what they say: it is served
/// in a supported version that it names, in the modern one only with the
/// capabilities of the client, and refused otherwise, with the code and the
/// message for what is wrong.
pub proof fn version_metadata_decide(
    session: Seq<char>,
    params: JsonModel,
    version: JsonModel,
    name: Seq<char>,
)
    requires
        params.member("_meta"@).get("io.modelcontextprotocol/protocolVersion"@) == Some(version),
    ensures
        ({
            let answer = request_version(session, params);
            let capable = params.member("_meta"@).member(
                "io.modelcontextprotocol/clientCapabilities"@,
            ) is Object;
            match version {
                JsonModel::Text(requested) => if requested == "2026-07-28"@ {
                    if capable {
                        answer == Ok::<Seq<char>, JsonModel>(requested)
                    } else {
                        answer matches Err(error) && says(
                            error,
                            "-32602"@,
                            "Missing or invalid client capabilities"@,
                        ) && error.get("data"@) is None
                    }
                } else if requested == "2025-11-25"@ || requested == "2025-06-18"@ || requested
                    == "2025-03-26"@ {
                    answer == Ok::<Seq<char>, JsonModel>(requested)
                } else {
                    answer matches Err(error) && says(
                        error,
                        "-32022"@,
                        "Unsupported protocol version"@,
                    ) && error.member("data"@).get("requested"@) == Some(version) && lists_versions(
                        error.member("data"@).member("supported"@),
                    )
                },
                _ => answer matches Err(error) && says(
                    error,
                    "-32602"@,
                    "Invalid protocol version metadata"@,
                ) && error.get("data"@) is None,
            }
        }),
        request_version(session, params) matches Err(error) ==> (error.get(name) is Some ==> name
            == "code"@ || name == "message"@ || name == "data"@),
{
    lemma_error_names();
    lemma_versions_listed();
    if let JsonModel::Text(requested) = version {
        four_versions_are_supported(requested);
    }
}

/// Whether `error` has that code and that message.
pub open spec fn says(error: JsonModel, code: Seq<char>, message: Seq<char>) -> bool {
    error.get("code"@) == Some(JsonModel::Number(code)) && error.get("message"@) == Some(
        JsonModel::Text(message),
    )
}

/// Whether `value` lists the four supported versions, the modern one first.
pub open spec fn lists_versions(value: JsonModel) -> bool {
    value == JsonModel::Array(
        seq![
            JsonModel::Text("2026-07-28"@),
            JsonModel::Text("2025-11-25"@),
            JsonModel::Text("2025-06-18"@),
            JsonModel::Text("2025-03-26"@),
        ],
    )
}

proof fn lemma_versions_listed()
    ensures
        lists_versions(supported_array()),
{
    assert(supported_array()->Array_0 =~= seq![
        JsonModel::Text("2026-07-28"@),
        JsonModel::Text("2025-11-25"@),
        JsonModel::Text("2025-06-18"@),
        JsonModel::Text("2025-03-26"@),
    ]);
}

proof fn lemma_error_names()
    ensures
        "code"@ != "message"@,
        "code"@ != "data"@,
        "message"@ != "data"@,
        "supported"@ != "requested"@,
{
    reveal_strlit("code");
    reveal_strlit("message");
    reveal_strlit("data");
    reveal_strlit("supported");
    reveal_strlit("requested");
    assert("code"@[0] == 'c' && "data"@[0] == 'd' && "message"@.len() == 7);
    assert("supported"@[0] == 's' && "requested"@[0] == 'r');
}

/// Framing sets the type of a result, and in the modern protocol the two cache
/// members of a list result, and nothing else: every other member stays as it is,
/// none is lost and none is added.
pub proof fn framing_keeps_every_other_member(
    version: Seq<char>,
    members: Map<Seq<char>, JsonModel>,
    name: Seq<char>,
)
    requires
        name != "resultType"@,
    ensures
        completed(version, JsonModel::Object(members)).get(name) == (if members.dom().contains(
            name,
        ) {
            Some(members[name])
        } else {
            None
        }),
        name != "ttlMs"@ && name != "cacheScope"@ ==> completed_list(
            version,
            JsonModel::Object(members),
        ).get(name) == (if members.dom().contains(name) {
            Some(members[name])
        } else {
            None
        }),
        name != "ttlMs"@ && name != "cacheScope"@ ==> completed_list(version, JsonModel::Null).get(
            name,
        ) is None,
{
}

/// What is no object is not framed; a list result that is null becomes an object
/// in the modern protocol, and stays null in a legacy one.
pub proof fn only_objects_are_framed(version: Seq<char>, result: JsonModel)
    requires
        !(result is Object),
    ensures
        completed(version, result) == result,
        version != "2026-07-28"@ ==> completed_list(version, result) == result,
        version == "2026-07-28"@ ==> completed_list(version, JsonModel::Null) is Object,
{
}

/// The result of a discovery request holds what it was given, under the names of
/// the protocol, and the versions that are supported; it holds no other member.
pub proof fn discovery_holds_what_it_is_given(
    capabilities: JsonModel,
    server_name: Seq<char>,
    server_version: Seq<char>,
    instructions: Seq<char>,
    name: Seq<char>,
)
    ensures
        ({
            let found = discovered(capabilities, server_name, server_version, instructions);
            let server = found.member("_meta"@).member("io.modelcontextprotocol/serverInfo"@);
            &&& found.get("resultType"@) == Some(JsonModel::Text("complete"@))
            &&& found.get("supportedVersions"@) is Some
            &&& lists_versions(found.member("supportedVersions"@))
            &&& found.get("capabilities"@) == Some(capabilities)
            &&& found.get("instructions"@) == Some(JsonModel::Text(instructions))
            &&& found.get("ttlMs"@) == Some(JsonModel::Number("0"@))
            &&& found.get("cacheScope"@) == Some(JsonModel::Text("private"@))
            &&& server.get("name"@) == Some(JsonModel::Text(server_name))
            &&& server.get("version"@) == Some(JsonModel::Text(server_version))
            &&& found.get(name) is Some ==> name == "resultType"@ || name == "supportedVersions"@
                || name == "capabilities"@ || name == "instructions"@ || name == "ttlMs"@ || name
                == "cacheScope"@ || name == "_meta"@
        }),
{
    lemma_frame_names();
    lemma_versions_listed();
    reveal_strlit("resultType");
    reveal_strlit("supportedVersions");
    reveal_strlit("capabilities");
    reveal_strlit("instructions");
    reveal_strlit("ttlMs");
    reveal_strlit("cacheScope");
    reveal_strlit("_meta");
    reveal_strlit("name");
    reveal_strlit("version");
    assert("_meta"@[0] != "ttlMs"@[0]);
    assert("capabilities"@[0] == 'c' && "instructions"@[0] == 'i');
    assert("supportedVersions"@.len() == 17 && "capabilities"@.len() == 12 && "instructions"@.len()
        == 12 && "resultType"@.len() == 10 && "cacheScope"@.len() == 10 && "ttlMs"@.len() == 5
        && "_meta"@.len() == 5 && "name"@.len() == 4 && "version"@.len() == 7);
}

} // verus!
