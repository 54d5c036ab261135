//! Configuration and its defaults.

use vstd::prelude::*;

verus! {

/// The longest content preview, in characters.
pub const PREVIEW_MAX_LENGTH: usize = 200;

/// Where the search for a sentence end starts when a preview is cut.
pub const SENTENCE_SEARCH_START: usize = 50;

/// The directory that is watched unless another is configured.
pub const WATCH_PATH: &'static str = "./docs";

/// The directory of the index unless another is configured.
pub const STORAGE_PATH: &'static str = "./storage";

/// The memory of the index writer unless another is configured: 50 MB.
pub const INDEX_WRITER_MEMORY: usize = 50_000_000;

/// Where things are kept. A path that is not set is chosen by its user.
#[derive(Debug, Clone)]
pub struct IndexConfig {
    pub watch_path: Option<String>,
    pub storage_path: Option<String>,
    pub cache_path: Option<String>,
}

/// The keyword model.
#[derive(Debug, Clone)]
pub struct AiConfig {
    pub model_path: Option<String>,
    /// How many keywords to extract from a document.
    pub keyword_count: usize,
}

/// How previews are cut.
#[derive(Debug, Clone, Copy, PartialEq, Eq, Structural)]
pub struct DisplayConfig {
    pub preview_max_length: usize,
    pub sentence_search_start: usize,
}

/// How the tree is walked.
#[derive(Debug, Clone)]
pub struct WalkerConfig {
    /// Whether to walk with regard to the ignore files of repositories.
    pub use_ripgrep_walker: bool,
    pub respect_gitignore: bool,
    pub respect_ignore: bool,
    pub skip_hidden: bool,
    pub follow_symlinks: bool,
    /// How deep to walk; 0 is without limit.
    pub max_depth: usize,
    pub custom_ignore_patterns: Vec<String>,
    /// The extensions of the files that are indexed, in lower case.
    pub supported_extensions: Vec<String>,
}

/// How much memory the index writer may use.
#[derive(Debug, Clone, Copy, PartialEq, Eq, Structural)]
pub struct PerformanceConfig {
    pub index_writer_memory: usize,
}

/// The configuration of the service.
#[derive(Debug, Clone)]
pub struct Config {
    pub index_config: IndexConfig,
    pub ai_config: AiConfig,
    pub display: DisplayConfig,
    pub walker: WalkerConfig,
    pub performance: PerformanceConfig,
}

/// The extensions that are indexed by default.
pub open spec fn default_extensions() -> Seq<Seq<char>> {
    seq!["txt"@, "md"@, "pdf"@]
}

impl Config {
    /// Whether every setting has its default.
    pub open spec fn is_default(&self) -> bool {
        &&& self.index_config.watch_path is None
        &&& self.index_config.storage_path is None
        &&& self.index_config.cache_path is None
        &&& self.ai_config.model_path is None
        &&& self.ai_config.keyword_count == 3
        &&& self.display.preview_max_length == 200
        &&& self.display.sentence_search_start == 50
        &&& self.walker.use_ripgrep_walker
        &&& self.walker.respect_gitignore
        &&& self.walker.respect_ignore
        &&& self.walker.skip_hidden
        &&& !self.walker.follow_symlinks
        &&& self.walker.max_depth == 0
        &&& self.walker.custom_ignore_patterns@.len() == 0
        &&& crate::text::string_views(self.walker.supported_extensions@) == default_extensions()
        &&& self.performance.index_writer_memory == 50_000_000
    }
}

impl Default for Config {
    fn default() -> (c: Self)
        ensures
            c.is_default(),
    {
        let mut supported_extensions: Vec<String> = Vec::new();
        supported_extensions.push("txt".to_owned());
        supported_extensions.push("md".to_owned());
        supported_extensions.push("pdf".to_owned());
        assert(crate::text::string_views(supported_extensions@) =~= default_extensions());
        Config {
            index_config: IndexConfig { watch_path: None, storage_path: None, cache_path: None },
            ai_config: AiConfig { model_path: None, keyword_count: 3 },
            display: DisplayConfig {
                preview_max_length: PREVIEW_MAX_LENGTH,
                sentence_search_start: SENTENCE_SEARCH_START,
            },
            walker: WalkerConfig {
                use_ripgrep_walker: true,
                respect_gitignore: true,
                respect_ignore: true,
                skip_hidden: true,
                follow_symlinks: false,
                max_depth: 0,
                custom_ignore_patterns: Vec::new(),
                supported_extensions,
            },
            performance: PerformanceConfig { index_writer_memory: INDEX_WRITER_MEMORY },
        }
    }
}

} // verus!
