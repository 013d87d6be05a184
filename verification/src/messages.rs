//! Messages between the extension host and the agent: plain data carried
//! across that boundary.

use vstd::prelude::*;

verus! {

/// Selects a chat model by its descriptors.
#[derive(Debug)]
pub struct LanguageModelChatSelector {
    pub vendor: Option<String>,
    pub family: Option<String>,
    pub version: Option<String>,
    pub id: Option<String>,
}

/// What kind of message the extension sends.
#[derive(Clone, Copy, PartialEq, Eq, Structural, Debug)]
pub enum ExtensionMessageType {
    Action,
    State,
    SelectedImages,
    OllamaModels,
    LmStudioModels,
    Theme,
    WorkspaceUpdated,
    Invoke,
    PartialMessage,
    GlamaModels,
    OpenRouterModels,
    OpenAiModels,
    McpServers,
    EnhancedPrompt,
    CommitSearchResults,
    ListApiConfig,
    VsCodeLmModels,
    VsCodeLmApiAvailable,
    RequestVsCodeLmModels,
    UpdatePrompt,
    SystemPrompt,
    AutoApprovalEnabled,
    UpdateCustomMode,
    DeleteCustomMode,
}

/// A button or view action.
#[derive(Clone, Copy, PartialEq, Eq, Structural, Debug)]
pub enum ExtensionAction {
    ChatButtonClicked,
    McpButtonClicked,
    SettingsButtonClicked,
    HistoryButtonClicked,
    PromptsButtonClicked,
    DidBecomeVisible,
}

/// An invocation the extension requests.
#[derive(Clone, Copy, PartialEq, Eq, Structural, Debug)]
pub enum ExtensionInvoke {
    SendMessage,
    PrimaryButtonClick,
    SecondaryButtonClick,
    SetChatBoxMessage,
}

/// An editor tab.
#[derive(Debug)]
pub struct OpenedTab {
    pub label: String,
    pub is_active: bool,
    pub path: Option<String>,
}

/// Descriptor of a model; fields join as the integration needs them.
#[derive(Debug)]
pub struct ModelInfo {
}

/// Connection state of an external tool server.
#[derive(Clone, Copy, PartialEq, Eq, Structural, Debug)]
pub enum McpServerStatus {
    Connected,
    Connecting,
    Disconnected,
}

/// A resource an external tool server offers.
#[derive(Debug)]
pub struct McpResource {
    pub uri: String,
    pub name: String,
    pub mime_type: Option<String>,
    pub description: Option<String>,
}

/// A parameterized resource an external tool server offers.
#[derive(Debug)]
pub struct McpResourceTemplate {
    pub uri_template: String,
    pub name: String,
    pub description: Option<String>,
    pub mime_type: Option<String>,
}

/// The content of a fetched resource.
#[derive(Debug)]
pub struct McpResourceContent {
    pub uri: String,
    pub mime_type: Option<String>,
    pub text: Option<String>,
    pub blob: Option<String>,
}

/// One piece of a tool call's response.
#[derive(Debug)]
pub enum McpToolCallResponseContent {
    Text { text: String },
    Image { data: String, mime_type: String },
    Resource { resource: McpResourceContent },
}

/// Descriptor of a commit; fields join as the integration needs them.
#[derive(Debug)]
pub struct GitCommit {
}

/// A stored API configuration's listing entry.
#[derive(Debug)]
pub struct ApiConfigMeta {
    pub id: String,
    pub name: String,
    pub api_provider: Option<ApiProvider>,
}

/// Descriptor of an API provider; fields join as the integration needs
/// them.
#[derive(Debug)]
pub struct ApiProvider {
}

/// A mode identifier; variants join as the integration needs them.
#[derive(Debug)]
pub struct Mode {
}

/// A mode's configuration; fields join as the integration needs them.
#[derive(Debug)]
pub struct ModeConfig {
}

/// One message of the agent's transcript.
#[derive(Debug)]
pub struct ClineMessage {
    pub ts: i64,
    pub message_type: ClineMessageType,
    pub ask: Option<ClineAsk>,
    pub say: Option<ClineSay>,
    pub text: Option<String>,
    pub images: Option<Vec<String>>,
    pub partial: Option<bool>,
    pub reasoning: Option<String>,
}

/// Whether a transcript message asks or says.
#[derive(Clone, Copy, PartialEq, Eq, Structural, Debug)]
pub enum ClineMessageType {
    Ask,
    Say,
}

/// What the agent asks the user.
#[derive(Clone, Copy, PartialEq, Eq, Structural, Debug)]
pub enum ClineAsk {
    Followup,
    Command,
    CommandOutput,
    CompletionResult,
    Tool,
    ApiReqFailed,
    ResumeTask,
    ResumeCompletedTask,
    MistakeLimitReached,
    BrowserActionLaunch,
    UseMcpServer,
}

/// What the agent tells the user.
#[derive(Clone, Copy, PartialEq, Eq, Structural, Debug)]
pub enum ClineSay {
    Task,
    Error,
    ApiReqStarted,
    ApiReqFinished,
    Text,
    Reasoning,
    CompletionResult,
    UserFeedback,
    UserFeedbackDiff,
    ApiReqRetried,
    ApiReqRetryDelayed,
    CommandOutput,
    Tool,
    ShellIntegrationWarning,
    BrowserAction,
    BrowserActionResult,
    Command,
    McpServerRequestStarted,
    McpServerResponse,
    NewTaskStarted,
    NewTask,
}

/// An action in the browser session.
#[derive(Clone, Copy, PartialEq, Eq, Structural, Debug)]
pub enum BrowserAction {
    Launch,
    Click,
    Type,
    ScrollDown,
    ScrollUp,
    Close,
}

/// A browser action as the agent reports it.
#[derive(Debug)]
pub struct ClineSayBrowserAction {
    pub action: BrowserAction,
    pub coordinate: Option<String>,
    pub text: Option<String>,
}

/// What came back from a browser action.
#[derive(Debug)]
pub struct BrowserActionResult {
    pub screenshot: Option<String>,
    pub logs: Option<String>,
    pub current_url: Option<String>,
    pub current_mouse_position: Option<String>,
}

/// A request to use an external tool server.
#[derive(Debug)]
pub struct ClineAskUseMcpServer {
    pub server_name: String,
    pub action_type: ClineAskUseMcpServerType,
    pub tool_name: Option<String>,
    pub arguments: Option<String>,
    pub uri: Option<String>,
}

/// Whether a server request runs a tool or reads a resource.
#[derive(Clone, Copy, PartialEq, Eq, Structural, Debug)]
pub enum ClineAskUseMcpServerType {
    UseMcpTool,
    AccessMcpResource,
}

/// Why an API request was cancelled.
#[derive(Clone, Copy, PartialEq, Eq, Structural, Debug)]
pub enum ClineApiReqCancelReason {
    StreamingFailed,
    UserCancelled,
}

/// An API configuration; fields join as the integration needs them.
#[derive(Debug)]
pub struct ApiConfiguration {
}

/// Per-mode prompt overrides; fields join as the integration needs them.
#[derive(Debug)]
pub struct CustomModePrompts {
}

/// Support-prompt overrides; fields join as the integration needs them.
#[derive(Debug)]
pub struct CustomSupportPrompts {
}

} // verus!
