//! The items and events of the Responses model, as far as the chat wire has to do with them.

use vstd::prelude::*;

use crate::json::{Json, JsonView};

verus! {

/// The identifier of an item.
#[derive(Debug)]
pub struct ResponseItemId {
    id: String,
}

impl DeepView for ResponseItemId {
    type V = Seq<char>;

    closed spec fn deep_view(&self) -> Seq<char> {
        self.id@
    }
}

impl ResponseItemId {
    /// An identifier that came from a server, or stands for one.
    pub fn from_server(id: String) -> (r: ResponseItemId)
        ensures
            r.deep_view() == id@,
    {
        ResponseItemId { id }
    }

    /// The identifier as text.
    pub fn as_str(&self) -> (r: &str)
        ensures
            r@ == self.deep_view(),
    {
        self.id.as_str()
    }
}

impl Clone for ResponseItemId {
    fn clone(&self) -> (r: Self)
        ensures
            r.deep_view() == self.deep_view(),
    {
        ResponseItemId { id: self.id.clone() }
    }
}

/// A part of a message.
#[derive(Debug)]
pub enum ContentItem {
    InputText { text: String },
    OutputText { text: String },
    InputImage { image_url: String },
    InputAudio { audio_url: String },
}

/// What a [`ContentItem`] is.
pub enum ContentView {
    InputText { text: Seq<char> },
    OutputText { text: Seq<char> },
    InputImage { image_url: Seq<char> },
    InputAudio { audio_url: Seq<char> },
}

impl DeepView for ContentItem {
    type V = ContentView;

    open spec fn deep_view(&self) -> ContentView {
        match self {
            ContentItem::InputText { text } => ContentView::InputText { text: text@ },
            ContentItem::OutputText { text } => ContentView::OutputText { text: text@ },
            ContentItem::InputImage { image_url } => ContentView::InputImage {
                image_url: image_url@,
            },
            ContentItem::InputAudio { audio_url } => ContentView::InputAudio {
                audio_url: audio_url@,
            },
        }
    }
}

impl Clone for ContentItem {
    fn clone(&self) -> (r: Self)
        ensures
            r.deep_view() == self.deep_view(),
    {
        match self {
            ContentItem::InputText { text } => ContentItem::InputText { text: text.clone() },
            ContentItem::OutputText { text } => ContentItem::OutputText { text: text.clone() },
            ContentItem::InputImage { image_url } => ContentItem::InputImage {
                image_url: image_url.clone(),
            },
            ContentItem::InputAudio { audio_url } => ContentItem::InputAudio {
                audio_url: audio_url.clone(),
            },
        }
    }
}

/// What a tool gave back.
#[derive(Debug)]
pub enum FunctionCallOutputBody {
    /// Plain text.
    Text(String),
    /// Structured content, held by its rendering as plain text where it has one.
    ContentItems { text: Option<String> },
}

/// What a [`FunctionCallOutputBody`] is.
pub enum OutputBodyView {
    Text(Seq<char>),
    ContentItems { text: Option<Seq<char>> },
}

impl DeepView for FunctionCallOutputBody {
    type V = OutputBodyView;

    open spec fn deep_view(&self) -> OutputBodyView {
        match self {
            FunctionCallOutputBody::Text(text) => OutputBodyView::Text(text@),
            FunctionCallOutputBody::ContentItems { text } => OutputBodyView::ContentItems {
                text: text.deep_view(),
            },
        }
    }
}

impl OutputBodyView {
    /// The plain text, where there is one.
    pub open spec fn text(self) -> Option<Seq<char>> {
        match self {
            OutputBodyView::Text(text) => Some(text),
            OutputBodyView::ContentItems { text } => text,
        }
    }
}

impl FunctionCallOutputBody {
    /// The plain text, where there is one.
    pub fn to_text(&self) -> (r: Option<String>)
        ensures
            r.deep_view() == self.deep_view().text(),
    {
        match self {
            FunctionCallOutputBody::Text(text) => Some(text.clone()),
            FunctionCallOutputBody::ContentItems { text } => text.clone(),
        }
    }
}

/// What a tool gave back, and whether it succeeded.
#[derive(Debug)]
pub struct FunctionCallOutputPayload {
    pub body: FunctionCallOutputBody,
    pub success: Option<bool>,
}

/// What a [`FunctionCallOutputPayload`] is.
pub struct OutputView {
    pub body: OutputBodyView,
    pub success: Option<bool>,
}

impl DeepView for FunctionCallOutputPayload {
    type V = OutputView;

    open spec fn deep_view(&self) -> OutputView {
        OutputView { body: self.body.deep_view(), success: self.success }
    }
}

/// An item of a conversation. Of the kinds without fields nothing goes on the chat wire.
#[allow(inconsistent_fields)]
#[derive(Debug)]
pub enum ResponseItem {
    /// A message of some role.
    Message {
        id: Option<ResponseItemId>,
        role: String,
        content: Vec<ContentItem>,
        phase: Option<Json>,
        internal_chat_message_metadata_passthrough: Option<Json>,
    },
    /// A call of a function tool.
    FunctionCall {
        id: Option<ResponseItemId>,
        name: String,
        namespace: Option<String>,
        arguments: String,
        encrypted_function_args: Option<Json>,
        call_id: String,
        internal_chat_message_metadata_passthrough: Option<Json>,
    },
    /// What a function tool gave back.
    FunctionCallOutput {
        id: Option<ResponseItemId>,
        call_id: Option<String>,
        name: Option<String>,
        namespace: Option<String>,
        output: FunctionCallOutputPayload,
        internal_chat_message_metadata_passthrough: Option<Json>,
    },
    /// A call of a custom tool.
    CustomToolCall {
        id: Option<ResponseItemId>,
        status: Option<String>,
        call_id: String,
        name: String,
        namespace: Option<String>,
        input: String,
        internal_chat_message_metadata_passthrough: Option<Json>,
    },
    /// What a custom tool gave back.
    CustomToolCallOutput {
        id: Option<ResponseItemId>,
        call_id: Option<String>,
        output: FunctionCallOutputPayload,
        internal_chat_message_metadata_passthrough: Option<Json>,
    },
    /// The model's reasoning, which is not for other eyes.
    Reasoning {
        id: Option<ResponseItemId>,
        encrypted_content: Option<String>,
    },
    LocalShellCall,
    ToolSearchCall,
    ToolSearchOutput,
    WebSearchCall,
    ImageGenerationCall,
    Compaction,
    CompactionTrigger,
    ContextCompaction,
    AgentMessage,
    AdditionalTools,
    ConfigurationUpdate,
    Other,
}

/// What a [`ResponseItem`] is.
#[allow(inconsistent_fields)]
pub enum ItemView {
    Message {
        id: Option<Seq<char>>,
        role: Seq<char>,
        content: Seq<ContentView>,
        phase: Option<JsonView>,
        internal_chat_message_metadata_passthrough: Option<JsonView>,
    },
    FunctionCall {
        id: Option<Seq<char>>,
        name: Seq<char>,
        namespace: Option<Seq<char>>,
        arguments: Seq<char>,
        encrypted_function_args: Option<JsonView>,
        call_id: Seq<char>,
        internal_chat_message_metadata_passthrough: Option<JsonView>,
    },
    FunctionCallOutput {
        id: Option<Seq<char>>,
        call_id: Option<Seq<char>>,
        name: Option<Seq<char>>,
        namespace: Option<Seq<char>>,
        output: OutputView,
        internal_chat_message_metadata_passthrough: Option<JsonView>,
    },
    CustomToolCall {
        id: Option<Seq<char>>,
        status: Option<Seq<char>>,
        call_id: Seq<char>,
        name: Seq<char>,
        namespace: Option<Seq<char>>,
        input: Seq<char>,
        internal_chat_message_metadata_passthrough: Option<JsonView>,
    },
    CustomToolCallOutput {
        id: Option<Seq<char>>,
        call_id: Option<Seq<char>>,
        output: OutputView,
        internal_chat_message_metadata_passthrough: Option<JsonView>,
    },
    Reasoning {
        id: Option<Seq<char>>,
        encrypted_content: Option<Seq<char>>,
    },
    LocalShellCall,
    ToolSearchCall,
    ToolSearchOutput,
    WebSearchCall,
    ImageGenerationCall,
    Compaction,
    CompactionTrigger,
    ContextCompaction,
    AgentMessage,
    AdditionalTools,
    ConfigurationUpdate,
    Other,
}

impl DeepView for ResponseItem {
    type V = ItemView;

    open spec fn deep_view(&self) -> ItemView {
        match self {
            ResponseItem::Message {
                id,
                role,
                content,
                phase,
                internal_chat_message_metadata_passthrough,
            } => ItemView::Message {
                id: id.deep_view(),
                role: role.deep_view(),
                content: content.deep_view(),
                phase: phase.deep_view(),
                internal_chat_message_metadata_passthrough: internal_chat_message_metadata_passthrough.deep_view(),
            },
            ResponseItem::FunctionCall {
                id,
                name,
                namespace,
                arguments,
                encrypted_function_args,
                call_id,
                internal_chat_message_metadata_passthrough,
            } => ItemView::FunctionCall {
                id: id.deep_view(),
                name: name.deep_view(),
                namespace: namespace.deep_view(),
                arguments: arguments.deep_view(),
                encrypted_function_args: encrypted_function_args.deep_view(),
                call_id: call_id.deep_view(),
                internal_chat_message_metadata_passthrough: internal_chat_message_metadata_passthrough.deep_view(),
            },
            ResponseItem::FunctionCallOutput {
                id,
                call_id,
                name,
                namespace,
                output,
                internal_chat_message_metadata_passthrough,
            } => ItemView::FunctionCallOutput {
                id: id.deep_view(),
                call_id: call_id.deep_view(),
                name: name.deep_view(),
                namespace: namespace.deep_view(),
                output: output.deep_view(),
                internal_chat_message_metadata_passthrough: internal_chat_message_metadata_passthrough.deep_view(),
            },
            ResponseItem::CustomToolCall {
                id,
                status,
                call_id,
                name,
                namespace,
                input,
                internal_chat_message_metadata_passthrough,
            } => ItemView::CustomToolCall {
                id: id.deep_view(),
                status: status.deep_view(),
                call_id: call_id.deep_view(),
                name: name.deep_view(),
                namespace: namespace.deep_view(),
                input: input.deep_view(),
                internal_chat_message_metadata_passthrough: internal_chat_message_metadata_passthrough.deep_view(),
            },
            ResponseItem::CustomToolCallOutput {
                id,
                call_id,
                output,
                internal_chat_message_metadata_passthrough,
            } => ItemView::CustomToolCallOutput {
                id: id.deep_view(),
                call_id: call_id.deep_view(),
                output: output.deep_view(),
                internal_chat_message_metadata_passthrough: internal_chat_message_metadata_passthrough.deep_view(),
            },
            ResponseItem::Reasoning {
                id,
                encrypted_content,
            } => ItemView::Reasoning {
                id: id.deep_view(),
                encrypted_content: encrypted_content.deep_view(),
            },
            ResponseItem::LocalShellCall => ItemView::LocalShellCall,
            ResponseItem::ToolSearchCall => ItemView::ToolSearchCall,
            ResponseItem::ToolSearchOutput => ItemView::ToolSearchOutput,
            ResponseItem::WebSearchCall => ItemView::WebSearchCall,
            ResponseItem::ImageGenerationCall => ItemView::ImageGenerationCall,
            ResponseItem::Compaction => ItemView::Compaction,
            ResponseItem::CompactionTrigger => ItemView::CompactionTrigger,
            ResponseItem::ContextCompaction => ItemView::ContextCompaction,
            ResponseItem::AgentMessage => ItemView::AgentMessage,
            ResponseItem::AdditionalTools => ItemView::AdditionalTools,
            ResponseItem::ConfigurationUpdate => ItemView::ConfigurationUpdate,
            ResponseItem::Other => ItemView::Other,
        }
    }
}

impl Clone for FunctionCallOutputBody {
    fn clone(&self) -> (r: Self)
        ensures
            r.deep_view() == self.deep_view(),
    {
        match self {
            FunctionCallOutputBody::Text(text) => FunctionCallOutputBody::Text(text.clone()),
            FunctionCallOutputBody::ContentItems { text } => FunctionCallOutputBody::ContentItems {
                text: text.clone(),
            },
        }
    }
}

impl Clone for FunctionCallOutputPayload {
    fn clone(&self) -> (r: Self)
        ensures
            r.deep_view() == self.deep_view(),
    {
        FunctionCallOutputPayload { body: self.body.clone(), success: self.success }
    }
}

impl Clone for ResponseItem {
    fn clone(&self) -> (r: Self)
        ensures
            r.deep_view() == self.deep_view(),
    {
        match self {
            ResponseItem::Message {
                id,
                role,
                content,
                phase,
                internal_chat_message_metadata_passthrough,
            } => ResponseItem::Message {
                id: id.clone(),
                role: role.clone(),
                content: content.clone(),
                phase: phase.clone(),
                internal_chat_message_metadata_passthrough: internal_chat_message_metadata_passthrough.clone(),
            },
            ResponseItem::FunctionCall {
                id,
                name,
                namespace,
                arguments,
                encrypted_function_args,
                call_id,
                internal_chat_message_metadata_passthrough,
            } => ResponseItem::FunctionCall {
                id: id.clone(),
                name: name.clone(),
                namespace: namespace.clone(),
                arguments: arguments.clone(),
                encrypted_function_args: encrypted_function_args.clone(),
                call_id: call_id.clone(),
                internal_chat_message_metadata_passthrough: internal_chat_message_metadata_passthrough.clone(),
            },
            ResponseItem::FunctionCallOutput {
                id,
                call_id,
                name,
                namespace,
                output,
                internal_chat_message_metadata_passthrough,
            } => ResponseItem::FunctionCallOutput {
                id: id.clone(),
                call_id: call_id.clone(),
                name: name.clone(),
                namespace: namespace.clone(),
                output: output.clone(),
                internal_chat_message_metadata_passthrough: internal_chat_message_metadata_passthrough.clone(),
            },
            ResponseItem::CustomToolCall {
                id,
                status,
                call_id,
                name,
                namespace,
                input,
                internal_chat_message_metadata_passthrough,
            } => ResponseItem::CustomToolCall {
                id: id.clone(),
                status: status.clone(),
                call_id: call_id.clone(),
                name: name.clone(),
                namespace: namespace.clone(),
                input: input.clone(),
                internal_chat_message_metadata_passthrough: internal_chat_message_metadata_passthrough.clone(),
            },
            ResponseItem::CustomToolCallOutput {
                id,
                call_id,
                output,
                internal_chat_message_metadata_passthrough,
            } => ResponseItem::CustomToolCallOutput {
                id: id.clone(),
                call_id: call_id.clone(),
                output: output.clone(),
                internal_chat_message_metadata_passthrough: internal_chat_message_metadata_passthrough.clone(),
            },
            ResponseItem::Reasoning {
                id,
                encrypted_content,
            } => ResponseItem::Reasoning {
                id: id.clone(),
                encrypted_content: encrypted_content.clone(),
            },
            ResponseItem::LocalShellCall => ResponseItem::LocalShellCall,
            ResponseItem::ToolSearchCall => ResponseItem::ToolSearchCall,
            ResponseItem::ToolSearchOutput => ResponseItem::ToolSearchOutput,
            ResponseItem::WebSearchCall => ResponseItem::WebSearchCall,
            ResponseItem::ImageGenerationCall => ResponseItem::ImageGenerationCall,
            ResponseItem::Compaction => ResponseItem::Compaction,
            ResponseItem::CompactionTrigger => ResponseItem::CompactionTrigger,
            ResponseItem::ContextCompaction => ResponseItem::ContextCompaction,
            ResponseItem::AgentMessage => ResponseItem::AgentMessage,
            ResponseItem::AdditionalTools => ResponseItem::AdditionalTools,
            ResponseItem::ConfigurationUpdate => ResponseItem::ConfigurationUpdate,
            ResponseItem::Other => ResponseItem::Other,
        }
    }
}

/// What a response tells of itself while it is read.
#[allow(inconsistent_fields)]
#[derive(Debug)]
pub enum ResponseEvent {
    Created { response_id: Option<String> },
    OutputItemAdded(ResponseItem),
    OutputTextDelta(String),
    OutputItemDone(ResponseItem),
    Completed {
        response_id: String,
        token_usage: Option<Json>,
        usage_metadata: Option<Json>,
        end_turn: Option<bool>,
    },
}

/// What a [`ResponseEvent`] is.
#[allow(inconsistent_fields)]
pub enum EventView {
    Created { response_id: Option<Seq<char>> },
    OutputItemAdded(ItemView),
    OutputTextDelta(Seq<char>),
    OutputItemDone(ItemView),
    Completed {
        response_id: Seq<char>,
        token_usage: Option<JsonView>,
        usage_metadata: Option<JsonView>,
        end_turn: Option<bool>,
    },
}

impl DeepView for ResponseEvent {
    type V = EventView;

    open spec fn deep_view(&self) -> EventView {
        match self {
            ResponseEvent::Created { response_id } => EventView::Created {
                response_id: response_id.deep_view(),
            },
            ResponseEvent::OutputItemAdded(item) => EventView::OutputItemAdded(item.deep_view()),
            ResponseEvent::OutputTextDelta(text) => EventView::OutputTextDelta(text@),
            ResponseEvent::OutputItemDone(item) => EventView::OutputItemDone(item.deep_view()),
            ResponseEvent::Completed { response_id, token_usage, usage_metadata, end_turn } => {
                EventView::Completed {
                    response_id: response_id@,
                    token_usage: token_usage.deep_view(),
                    usage_metadata: usage_metadata.deep_view(),
                    end_turn: *end_turn,
                }
            },
        }
    }
}

} // verus!
