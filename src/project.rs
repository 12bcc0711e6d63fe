use vstd::prelude::*;

verus! {

/// Information about the application version that created a project.
#[derive(Debug, PartialEq, Eq, Hash)]
pub struct Metadata {
    /// Application name (this is always "Cubase").
    pub application: String,
    /// Version of the application used to create the project.
    pub version: String,
    /// Release date of the application version used.
    pub release_date: String,
    /// System architecture used to create the project.
    pub architecture: String,
}

/// The text of each field of a [`Metadata`].
pub struct MetadataModel {
    pub application: Seq<char>,
    pub version: Seq<char>,
    pub release_date: Seq<char>,
    pub architecture: Seq<char>,
}

impl View for Metadata {
    type V = MetadataModel;

    open spec fn view(&self) -> MetadataModel {
        MetadataModel {
            application: self.application@,
            version: self.version@,
            release_date: self.release_date@,
            architecture: self.architecture@,
        }
    }
}

/// A plugin used within a project.
#[derive(Debug, PartialEq, Eq, Hash, Clone)]
pub struct Plugin {
    /// Globally unique identifier for the plugin.
    pub guid: String,
    /// Name of the plugin.
    pub name: String,
}

/// The text of each field of a [`Plugin`].
pub struct PluginModel {
    pub guid: Seq<char>,
    pub name: Seq<char>,
}

impl View for Plugin {
    type V = PluginModel;

    open spec fn view(&self) -> PluginModel {
        PluginModel { guid: self.guid@, name: self.name@ }
    }
}

/// The application version and the plugins of one project.
#[derive(Debug)]
pub struct Project {
    /// Metadata describing the application version used to create the project.
    pub metadata: Metadata,
    /// Plugins used in the project, each one once, in the order of their first record.
    pub plugins: Vec<Plugin>,
}

/// The metadata of a project and the sequence of its distinct plugins.
pub struct ProjectModel {
    pub metadata: MetadataModel,
    pub plugins: Seq<PluginModel>,
}

impl View for Project {
    type V = ProjectModel;

    open spec fn view(&self) -> ProjectModel {
        ProjectModel {
            metadata: self.metadata@,
            plugins: self.plugins@.map_values(|p: Plugin| p@),
        }
    }
}

impl Project {
    /// No plugin is listed twice.
    pub open spec fn wf(&self) -> bool {
        self@.plugins.no_duplicates()
    }

    /// The set of plugins that the project uses.
    pub open spec fn plugin_set(&self) -> Set<PluginModel> {
        self@.plugins.to_set()
    }
}

} // verus!
