use nucleus::chat::fold_round;
use nucleus::chat::ChatManager;
use nucleus::chat::ToolRunner;
use nucleus::config::RagConfig;
use nucleus::config::StorageConfig;
use nucleus::plugin::Permission;
use nucleus::plugin::PluginError;
use nucleus::plugin::PluginOutput;
use nucleus::plugin::PluginRegistry;
use nucleus::plugins::ReadFilePlugin;
use nucleus::provider::ChatRequest;
use nucleus::provider::ChatResponse;
use nucleus::provider::ChunkSink;
use nucleus::provider::Message;
use nucleus::provider::Provider;
use nucleus::provider::ProviderError;
use nucleus::provider::ToolCall;
use nucleus::provider::ToolCallFunction;
use nucleus::rag::RagEngine;

fn content_chunk(text: &str, done: bool) -> ChatResponse {
    ChatResponse {
        model: "m".to_string(),
        content: text.to_string(),
        done,
        message: Message {
            role: "assistant".to_string(),
            context: None,
            content: text.to_string(),
            images: None,
            tool_calls: None,
        },
    }
}

fn tool_call_chunk(name: &str, arguments: &str) -> ChatResponse {
    ChatResponse {
        model: "m".to_string(),
        content: String::new(),
        done: true,
        message: Message {
            role: "assistant".to_string(),
            context: None,
            content: String::new(),
            images: None,
            tool_calls: Some(vec![ToolCall {
                function: ToolCallFunction {
                    name: name.to_string(),
                    arguments: arguments.to_string(),
                },
            }]),
        },
    }
}

/// First round: one tool call and no text. Second round: text only.
struct ScriptedProvider {
    calls: usize,
}

impl Provider for ScriptedProvider {
    fn chat(&mut self, _request: &ChatRequest) -> Result<Vec<ChatResponse>, ProviderError> {
        self.calls += 1;
        if self.calls == 1 {
            Ok(vec![tool_call_chunk("read_file", "{\"path\":\"x.txt\"}")])
        } else {
            Ok(vec![
                content_chunk("Content", false),
                content_chunk(" is X", false),
                content_chunk("", true),
            ])
        }
    }

    fn embed(&mut self, _text: &str, _model: &str) -> Result<Vec<i64>, ProviderError> {
        Ok(vec![0, 0, 0, 0])
    }

    fn embed_batch(
        &mut self,
        texts: &Vec<String>,
        _model: &str,
    ) -> Result<Vec<Vec<i64>>, ProviderError> {
        Ok(texts.iter().map(|_| vec![0i64, 0, 0, 0]).collect())
    }
}

/// Records every tool invocation and answers with fixed file contents.
struct RecordingRunner {
    invocations: Vec<(String, String)>,
}

impl ToolRunner for RecordingRunner {
    fn run(&mut self, name: &str, arguments: &str) -> Result<PluginOutput, PluginError> {
        self.invocations
            .push((name.to_string(), arguments.to_string()));
        Ok(PluginOutput::new("file contents".to_string()))
    }
}

/// Collects every streamed delta.
struct CollectSink {
    parts: Vec<String>,
}

impl ChunkSink for CollectSink {
    fn on_chunk(&mut self, chunk: &str) {
        self.parts.push(chunk.to_string());
    }
}

fn manager(provider: ScriptedProvider, runner: RecordingRunner) -> ChatManager<ScriptedProvider, RecordingRunner> {
    let mut registry = PluginRegistry::new(Permission::read_only());
    assert!(registry.register(ReadFilePlugin::new().descriptor()));
    let rag = RagEngine::new(&RagConfig::default(), &StorageConfig::default(), 4).unwrap();
    ChatManager::new("m".to_string(), 600, provider, runner, registry, rag)
}

#[test]
fn test_tool_round_trip() {
    // The first response carries a single tool call and no text; the
    // second carries the final text. The tool must run exactly once with
    // its issued arguments, and the final text is returned and streamed.
    let mut m = manager(
        ScriptedProvider { calls: 0 },
        RecordingRunner {
            invocations: Vec::new(),
        },
    );
    let mut sink = CollectSink { parts: Vec::new() };
    let result = m.query_stream("read x", &mut sink).unwrap();

    assert_eq!(result, "Content is X");
    assert_eq!(
        m.runner.invocations,
        vec![(
            "read_file".to_string(),
            "{\"path\":\"x.txt\"}".to_string()
        )]
    );
    assert_eq!(sink.parts.concat(), "Content is X");
}

#[test]
fn test_streaming_monotonicity() {
    // For a round with no tool calls, the concatenation of everything
    // handed to the sink equals the returned text.
    struct OneRound;
    impl Provider for OneRound {
        fn chat(&mut self, _request: &ChatRequest) -> Result<Vec<ChatResponse>, ProviderError> {
            Ok(vec![
                content_chunk("He", false),
                content_chunk("llo", false),
                content_chunk("", true),
            ])
        }
        fn embed(&mut self, _text: &str, _model: &str) -> Result<Vec<i64>, ProviderError> {
            Ok(vec![0, 0, 0, 0])
        }
        fn embed_batch(
            &mut self,
            texts: &Vec<String>,
            _model: &str,
        ) -> Result<Vec<Vec<i64>>, ProviderError> {
            Ok(texts.iter().map(|_| vec![0i64, 0, 0, 0]).collect())
        }
    }
    struct NoTools;
    impl ToolRunner for NoTools {
        fn run(&mut self, _name: &str, _arguments: &str) -> Result<PluginOutput, PluginError> {
            Err(PluginError::Other("no tool should run".to_string()))
        }
    }
    let registry = PluginRegistry::new(Permission::none());
    let rag = RagEngine::new(&RagConfig::default(), &StorageConfig::default(), 4).unwrap();
    let mut m = ChatManager::new("m".to_string(), 600, OneRound, NoTools, registry, rag);
    let mut sink = CollectSink { parts: Vec::new() };
    let result = m.query_stream("hi", &mut sink).unwrap();
    assert_eq!(result, "Hello");
    assert_eq!(sink.parts.concat(), result);
}

#[test]
fn test_unknown_tool_aborts() {
    struct AsksUnknown;
    impl Provider for AsksUnknown {
        fn chat(&mut self, _request: &ChatRequest) -> Result<Vec<ChatResponse>, ProviderError> {
            Ok(vec![tool_call_chunk("no_such_tool", "{}")])
        }
        fn embed(&mut self, _text: &str, _model: &str) -> Result<Vec<i64>, ProviderError> {
            Ok(vec![0, 0, 0, 0])
        }
        fn embed_batch(
            &mut self,
            texts: &Vec<String>,
            _model: &str,
        ) -> Result<Vec<Vec<i64>>, ProviderError> {
            Ok(texts.iter().map(|_| vec![0i64, 0, 0, 0]).collect())
        }
    }
    struct NeverRuns;
    impl ToolRunner for NeverRuns {
        fn run(&mut self, _name: &str, _arguments: &str) -> Result<PluginOutput, PluginError> {
            panic!("the registry gate must refuse the call first");
        }
    }
    let registry = PluginRegistry::new(Permission::none());
    let rag = RagEngine::new(&RagConfig::default(), &StorageConfig::default(), 4).unwrap();
    let mut m = ChatManager::new("m".to_string(), 600, AsksUnknown, NeverRuns, registry, rag);
    let mut sink = CollectSink { parts: Vec::new() };
    let err = m.query_stream("go", &mut sink).unwrap_err();
    match err {
        nucleus::chat::ChatError::Tool { name, .. } => assert_eq!(name, "no_such_tool"),
        other => panic!("unexpected error: {:?}", other),
    }
}

#[test]
fn test_provider_failure_surfaces() {
    struct Down;
    impl Provider for Down {
        fn chat(&mut self, _request: &ChatRequest) -> Result<Vec<ChatResponse>, ProviderError> {
            Err(ProviderError::Timeout("no progress".to_string()))
        }
        fn embed(&mut self, _text: &str, _model: &str) -> Result<Vec<i64>, ProviderError> {
            Err(ProviderError::Timeout("no progress".to_string()))
        }
        fn embed_batch(
            &mut self,
            _texts: &Vec<String>,
            _model: &str,
        ) -> Result<Vec<Vec<i64>>, ProviderError> {
            Err(ProviderError::Timeout("no progress".to_string()))
        }
    }
    struct NoTools;
    impl ToolRunner for NoTools {
        fn run(&mut self, _name: &str, _arguments: &str) -> Result<PluginOutput, PluginError> {
            Err(PluginError::Other("no tool should run".to_string()))
        }
    }
    let registry = PluginRegistry::new(Permission::none());
    let rag = RagEngine::new(&RagConfig::default(), &StorageConfig::default(), 4).unwrap();
    let mut m = ChatManager::new("m".to_string(), 600, Down, NoTools, registry, rag);
    let mut sink = CollectSink { parts: Vec::new() };
    let err = m.query_stream("hi", &mut sink).unwrap_err();
    assert!(matches!(
        err,
        nucleus::chat::ChatError::Provider(ProviderError::Timeout(_))
    ));
}

#[test]
fn test_fold_round_accumulates_and_keeps_last_tool_calls() {
    let mut sink = CollectSink { parts: Vec::new() };
    let chunks = vec![
        content_chunk("a", false),
        tool_call_chunk("t1", "{}"),
        content_chunk("b", false),
    ];
    let state = fold_round(chunks, &mut sink);
    assert_eq!(state.accumulated, "ab");
    let calls = state.tool_calls.unwrap();
    assert_eq!(calls.len(), 1);
    assert_eq!(calls[0].function.name, "t1");
    assert_eq!(sink.parts, vec!["a".to_string(), "b".to_string()]);
}

#[test]
fn test_build_tools_from_registry() {
    let mut registry = PluginRegistry::new(Permission::read_only());
    registry.register(ReadFilePlugin::new().descriptor());
    let rag = RagEngine::new(&RagConfig::default(), &StorageConfig::default(), 4).unwrap();
    let m = ChatManager::new(
        "m".to_string(),
        600,
        ScriptedProvider { calls: 0 },
        RecordingRunner {
            invocations: Vec::new(),
        },
        registry,
        rag,
    );
    let tools = m.build_tools();
    assert_eq!(tools.len(), 1);
    assert_eq!(tools[0].tool_type, "function");
    assert_eq!(tools[0].function.name, "read_file");
}
