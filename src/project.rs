//! Tenants ("projects") and where their databases live.
use vstd::prelude::*;
use vstd::string::*;
use crate::json::{JsonData, JsonValue};

verus! {

/// A tenant: its identifier, its URL-safe slug, and descriptive fields.
pub struct Project {
    pub id: String,
    pub slug: String,
    pub name: String,
    pub description: String,
    pub llm_context: String,
    pub settings: JsonValue,
}

impl Project {
    /// The tenant's directory, relative to the data directory: its slug.
    pub fn project_dir(&self) -> (r: String)
        ensures
            r@ == self.slug@,
    {
        self.slug.clone()
    }

    /// `<slug>/project.db`: workflows, secrets and metadata.
    pub fn project_db_path(&self) -> (r: String)
        ensures
            r@ == self.slug@ + "/project.db"@,
    {
        let mut s = self.slug.clone();
        s.append("/project.db");
        s
    }

    /// `<slug>/simpletable.db`: the simple-table nodes' data.
    pub fn simpletable_db_path(&self) -> (r: String)
        ensures
            r@ == self.slug@ + "/simpletable.db"@,
    {
        let mut s = self.slug.clone();
        s.append("/simpletable.db");
        s
    }

    /// The `default` tenant.
    pub fn default() -> (r: Project)
        ensures
            r.id@ == "default"@,
            r.slug@ == "default"@,
            r.name@ == "Default Project"@,
            r.settings@ == JsonData::Object(Seq::empty()),
    {
        let settings = JsonValue::Object(Vec::new());
        assert(crate::json::entries_data(Seq::<(String, JsonValue)>::empty()) =~= Seq::empty());
        Project {
            id: String::from_str("default"),
            slug: String::from_str("default"),
            name: String::from_str("Default Project"),
            description: String::from_str("Default project for existing workflows"),
            llm_context: String::from_str("General-purpose workflow automation project"),
            settings,
        }
    }
}

/// `<data_dir>/<slug>/<file>`: where a tenant's database file lives.
pub fn tenant_db_file(data_dir: &str, slug: &str, file: &str) -> (r: String)
    ensures
        r@ == data_dir@ + "/"@ + slug@ + "/"@ + file@,
{
    let mut s = String::from_str(data_dir);
    s.append("/");
    s.append(slug);
    s.append("/");
    s.append(file);
    s
}

} // verus!
