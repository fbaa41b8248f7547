//! Service configuration, the stores' settings and statistics, and the
//! error kinds of the services around the core.

use vstd::prelude::*;
use crate::text::decimal;
use crate::text::decimal_text;

verus! {

#[derive(Debug, Clone)]
pub struct RolesConfig {
    pub user_name: String,
    pub assistant_name: String,
}

impl RolesConfig {
    pub fn standard() -> (r: RolesConfig)
        ensures
            r.user_name@ == "用户"@,
            r.assistant_name@ == "助手"@,
    {
        RolesConfig { user_name: String::from_str("用户"), assistant_name: String::from_str("助手") }
    }
}

/// The display names a topic's packet is seeded with.
#[derive(Debug, Clone)]
pub struct AssistantRolesConfig {
    pub user_name: String,
    pub assistant_name: String,
}

impl AssistantRolesConfig {
    pub fn standard() -> (r: AssistantRolesConfig)
        ensures
            r.user_name@ == "用户"@,
            r.assistant_name@ == "助手"@,
    {
        AssistantRolesConfig {
            user_name: String::from_str("用户"),
            assistant_name: String::from_str("助手"),
        }
    }
}

/// Whether a topic keeps memories.
#[derive(Debug, Clone, Copy, PartialEq, Eq, Structural)]
pub enum TopicType {
    Normal,
    Memory,
}

impl TopicType {
    pub fn is_memory_enabled(&self) -> (r: bool)
        ensures
            r == (*self == TopicType::Memory),
    {
        match self {
            TopicType::Memory => true,
            TopicType::Normal => false,
        }
    }
}

#[derive(Debug, Clone)]
pub struct AiApiConfig {
    pub api_base: String,
    pub api_key: String,
    pub disable_gemini_thinking: bool,
    pub main_model: String,
    pub processor_model: String,
    pub embedding_model: String,
    pub extractor_model: String,
}

impl AiApiConfig {
    pub fn standard() -> (r: AiApiConfig)
        ensures
            r.api_base@ == "https://api.openai.com/v1"@,
            r.api_key@.len() == 0,
            !r.disable_gemini_thinking,
            r.main_model@ == "gpt-4o-mini"@,
            r.processor_model@ == "gpt-4o-mini"@,
            r.embedding_model@ == "text-embedding-3-small"@,
            r.extractor_model@ == "gpt-4o-mini"@,
    {
        AiApiConfig {
            api_base: String::from_str("https://api.openai.com/v1"),
            api_key: String::new(),
            disable_gemini_thinking: false,
            main_model: String::from_str("gpt-4o-mini"),
            processor_model: String::from_str("gpt-4o-mini"),
            embedding_model: String::from_str("text-embedding-3-small"),
            extractor_model: String::from_str("gpt-4o-mini"),
        }
    }
}

/// Where the vector database runs: a process of our own, or a server elsewhere.
#[derive(Debug, Clone)]
pub struct QdrantConfig {
    pub embedded: bool,
    pub exe_path: String,
    pub storage_path: String,
    pub port: u16,
    pub external_url: String,
}

impl QdrantConfig {
    pub fn standard() -> (r: QdrantConfig)
        ensures
            r.embedded,
            r.port == 6333,
            r.external_url@ == "http://127.0.0.1:6333"@,
    {
        QdrantConfig {
            embedded: true,
            exe_path: String::from_str("../qdrant-x86_64-pc-windows-msvc/qdrant.exe"),
            storage_path: String::from_str("../qdrant-x86_64-pc-windows-msvc/storage"),
            port: 6333,
            external_url: String::from_str("http://127.0.0.1:6333"),
        }
    }

    /// The address of the database: the local port when embedded, else the
    /// external address.
    pub fn url(&self) -> (r: String)
        ensures
            self.embedded ==> r@ == "http://127.0.0.1:"@ + decimal(self.port as nat),
            !self.embedded ==> r@ == self.external_url@,
    {
        if self.embedded {
            let mut r = String::from_str("http://127.0.0.1:");
            let port = decimal_text(self.port as u64);
            r.append(port.as_str());
            r
        } else {
            self.external_url.clone()
        }
    }
}

#[derive(Debug, Clone)]
pub struct GlobalConfig {
    pub listen_addr: String,
    pub data_dir: String,
    pub ai: AiApiConfig,
    pub qdrant: QdrantConfig,
    pub roles: RolesConfig,
    pub prompts_dir: String,
}

impl GlobalConfig {
    /// The configuration used when no file gives one.
    pub fn standard() -> (r: GlobalConfig)
        ensures
            r.listen_addr@ == "0.0.0.0:7892"@,
            r.data_dir@ == "./data"@,
            r.prompts_dir@ == "./prompts"@,
    {
        GlobalConfig {
            listen_addr: String::from_str("0.0.0.0:7892"),
            data_dir: String::from_str("./data"),
            ai: AiApiConfig::standard(),
            qdrant: QdrantConfig::standard(),
            roles: RolesConfig::standard(),
            prompts_dir: String::from_str("./prompts"),
        }
    }

    /// The configuration read from the first file found, or the standard
    /// one when there is none.
    pub fn load_default(found: Option<Result<GlobalConfig, ConfigError>>) -> (r: Result<
        GlobalConfig,
        ConfigError,
    >)
        ensures
            found matches Some(f) ==> r == f,
            found is None ==> (r matches Ok(c) && c.data_dir@ == "./data"@),
    {
        match found {
            Some(f) => f,
            None => Ok(GlobalConfig::standard()),
        }
    }

    /// Where the assistants' directories are.
    pub fn assistants_dir(&self) -> (r: String)
        ensures
            r@ == self.data_dir@ + "/assistants"@,
    {
        let mut r = self.data_dir.clone();
        r.append("/assistants");
        r
    }
}

#[derive(Debug, Clone)]
pub enum ConfigError {
    IoError(String),
    ParseError(String),
}

#[derive(Debug, Clone)]
pub struct AiConfig {
    pub api_base: String,
    pub api_key: String,
    pub main_model: String,
    pub processor_model: String,
    pub embedding_model: String,
    pub extractor_model: String,
}

#[derive(Debug, Clone)]
pub enum AiError {
    NetworkError(String),
    ApiError(String),
    ParseError(String),
    ConfigError(String),
}

#[derive(Debug, Clone)]
pub enum ManagerError {
    Storage(String),
    AssistantExists(String),
    AssistantNotFound(String),
    TopicNotFound(String),
}

#[derive(Debug, Clone)]
pub enum QdrantError {
    ExeNotFound(String),
    IoError(String),
    SpawnError(String),
    ConnectionError(String),
    StartupTimeout,
}

#[derive(Debug, Clone)]
pub enum ExtractorError {
    AiError(String),
    ParseError(String),
    ConfigError(String),
}

/// A memory as the extractor's model reports it.
#[derive(Debug, Clone)]
pub struct ExtractedMemory {
    pub content: String,
    pub memory_type: Option<String>,
    pub importance: Option<u8>,
    pub entities: Vec<String>,
}

#[derive(Debug, Clone)]
pub struct ExtractionResult {
    pub memories: Vec<ExtractedMemory>,
    pub raw_response: String,
    pub parse_success: bool,
    pub warnings: Vec<String>,
}

#[derive(Debug, Clone)]
pub struct ExtractorConfig {
    pub api_base: String,
    pub api_key: String,
    pub model: String,
    pub custom_prompt: Option<String>,
    pub user_name: String,
    pub assistant_name: String,
}

#[derive(Debug, Clone)]
pub struct MemoryManagerConfig {
    pub qdrant_url: String,
    /// Prefix of the per-assistant collection names.
    pub collection_name: String,
    pub vector_size: u64,
    pub file_storage_dir: String,
}

impl MemoryManagerConfig {
    pub fn standard() -> (r: MemoryManagerConfig)
        ensures
            r.qdrant_url@ == "http://localhost:6333"@,
            r.collection_name@ == "memories"@,
            r.vector_size == 1536,
    {
        MemoryManagerConfig {
            qdrant_url: String::from_str("http://localhost:6333"),
            collection_name: String::from_str("memories"),
            vector_size: 1536,
            file_storage_dir: String::from_str("./data/assistants"),
        }
    }
}

/// Counts of a long-term store.
#[derive(Debug, Clone, Copy)]
pub struct StoreStats {
    pub memory_count: u64,
    pub file_count: usize,
}

#[derive(Debug, Clone, Copy, PartialEq, Eq, Structural)]
pub enum DistanceMetric {
    Cosine,
    Euclidean,
    Dot,
}

#[derive(Debug, Clone)]
pub struct VectorStoreConfig {
    pub qdrant_url: String,
    pub collection_name: String,
    pub vector_size: u64,
    pub distance: DistanceMetric,
}

impl VectorStoreConfig {
    /// A local collection of `vector_size` dimensions, compared by cosine.
    pub fn new(collection_name: &str, vector_size: u64) -> (r: VectorStoreConfig)
        ensures
            r.qdrant_url@ == "http://localhost:6333"@,
            r.collection_name@ == collection_name@,
            r.vector_size == vector_size,
            r.distance == DistanceMetric::Cosine,
    {
        VectorStoreConfig {
            qdrant_url: String::from_str("http://localhost:6333"),
            collection_name: String::from_str(collection_name),
            vector_size,
            distance: DistanceMetric::Cosine,
        }
    }

    pub fn with_url(self, url: &str) -> (r: VectorStoreConfig)
        ensures
            r.qdrant_url@ == url@,
            r.collection_name == self.collection_name,
            r.vector_size == self.vector_size,
            r.distance == self.distance,
    {
        VectorStoreConfig { qdrant_url: String::from_str(url), ..self }
    }

    pub fn with_distance(self, distance: DistanceMetric) -> (r: VectorStoreConfig)
        ensures
            r.distance == distance,
            r.qdrant_url == self.qdrant_url,
            r.collection_name == self.collection_name,
            r.vector_size == self.vector_size,
    {
        VectorStoreConfig { distance, ..self }
    }
}

#[derive(Debug, Clone)]
pub enum VectorStoreError {
    ConnectionError(String),
    CollectionError(String),
    PointError(String),
    SearchError(String),
    SerializationError(String),
}

/// The reply shape of the management interface: data or an error.
#[derive(Debug, Clone)]
pub struct ApiResponse<T> {
    pub success: bool,
    pub data: Option<T>,
    pub error: Option<String>,
}

impl<T> ApiResponse<T> {
    pub fn ok(data: T) -> (r: ApiResponse<T>)
        ensures
            r.success,
            r.data == Some(data),
            r.error is None,
    {
        ApiResponse { success: true, data: Some(data), error: None }
    }

    pub fn err(msg: &str) -> (r: ApiResponse<T>)
        ensures
            !r.success,
            r.data is None,
            (r.error matches Some(e) && e@ == msg@),
    {
        ApiResponse { success: false, data: None, error: Some(String::from_str(msg)) }
    }
}

/// Which memory owns which stored files.
#[derive(Debug, Clone)]
pub struct MemoryFiles {
    pub memory_id: String,
    pub file_ids: Vec<String>,
}

/// The index of the file side store: its files and, per memory, the files
/// that memory refers to.
#[derive(Debug, Clone)]
pub struct FileStore {
    pub storage_dir: String,
    pub files: Vec<String>,
    pub memory_files: Vec<MemoryFiles>,
}

#[derive(Debug, Clone, Copy)]
pub struct FileStoreStats {
    pub total_files: usize,
    pub total_memories: usize,
}

impl FileStore {
    pub fn stats(&self) -> (r: FileStoreStats)
        ensures
            r.total_files == self.files@.len(),
            r.total_memories == self.memory_files@.len(),
    {
        FileStoreStats { total_files: self.files.len(), total_memories: self.memory_files.len() }
    }
}

} // verus!
