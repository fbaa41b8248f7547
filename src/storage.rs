//! Where things live on disk: the layout of the data directory.

use vstd::prelude::*;

verus! {

pub open spec fn topic_dir_of(data_dir: Seq<char>, assistant_id: Seq<char>, topic_id: Seq<char>) -> Seq<
    char,
> {
    data_dir + "/assistants/"@ + assistant_id + "/topics/"@ + topic_id
}

pub fn topic_dir_text(data_dir: &str, assistant_id: &str, topic_id: &str) -> (r: String)
    ensures
        r@ == topic_dir_of(data_dir@, assistant_id@, topic_id@),
{
    let mut r = String::from_str(data_dir);
    r.append("/assistants/");
    r.append(assistant_id);
    r.append("/topics/");
    r.append(topic_id);
    r
}

/// The short-term vector file of a topic.
pub fn get_vector_file_path(data_dir: &str, assistant_id: &str, topic_id: &str) -> (r: String)
    ensures
        r@ == topic_dir_of(data_dir@, assistant_id@, topic_id@) + "/short_term_vectors.json"@,
{
    let mut r = topic_dir_text(data_dir, assistant_id, topic_id);
    r.append("/short_term_vectors.json");
    r
}

/// Failures of the assistant and topic files.
#[derive(Debug, Clone)]
pub enum StorageError {
    Io(String),
    Serialize(String),
    Deserialize(String),
    AssistantNotFound(String),
    TopicNotFound(String),
}

/// The paths of assistants and topics under the data directory.
#[derive(Debug, Clone)]
pub struct AssistantStorage {
    pub base_path: String,
}

impl AssistantStorage {
    pub fn new(data_dir: &str) -> (r: AssistantStorage)
        ensures
            r.base_path@ == data_dir@ + "/assistants"@,
    {
        let mut base = String::from_str(data_dir);
        base.append("/assistants");
        AssistantStorage { base_path: base }
    }

    pub fn assistant_dir(&self, assistant_id: &str) -> (r: String)
        ensures
            r@ == self.base_path@ + "/"@ + assistant_id@,
    {
        let mut r = self.base_path.clone();
        r.append("/");
        r.append(assistant_id);
        r
    }

    pub fn assistant_config_path(&self, assistant_id: &str) -> (r: String)
        ensures
            r@ == self.base_path@ + "/"@ + assistant_id@ + "/config.toml"@,
    {
        let mut r = self.assistant_dir(assistant_id);
        r.append("/config.toml");
        r
    }

    pub fn topics_dir(&self, assistant_id: &str) -> (r: String)
        ensures
            r@ == self.base_path@ + "/"@ + assistant_id@ + "/topics"@,
    {
        let mut r = self.assistant_dir(assistant_id);
        r.append("/topics");
        r
    }

    pub fn topic_dir(&self, assistant_id: &str, topic_id: &str) -> (r: String)
        ensures
            r@ == self.base_path@ + "/"@ + assistant_id@ + "/topics"@ + "/"@ + topic_id@,
    {
        let mut r = self.topics_dir(assistant_id);
        r.append("/");
        r.append(topic_id);
        r
    }

    pub fn topic_meta_path(&self, assistant_id: &str, topic_id: &str) -> (r: String)
        ensures
            r@ == self.base_path@ + "/"@ + assistant_id@ + "/topics"@ + "/"@ + topic_id@
                + "/meta.toml"@,
    {
        let mut r = self.topic_dir(assistant_id, topic_id);
        r.append("/meta.toml");
        r
    }

    pub fn topic_history_path(&self, assistant_id: &str, topic_id: &str) -> (r: String)
        ensures
            r@ == self.base_path@ + "/"@ + assistant_id@ + "/topics"@ + "/"@ + topic_id@
                + "/history.json"@,
    {
        let mut r = self.topic_dir(assistant_id, topic_id);
        r.append("/history.json");
        r
    }

    pub fn memory_dir(&self, assistant_id: &str) -> (r: String)
        ensures
            r@ == self.base_path@ + "/"@ + assistant_id@ + "/memory"@,
    {
        let mut r = self.assistant_dir(assistant_id);
        r.append("/memory");
        r
    }
}

} // verus!
