use vstd::prelude::*;
use crate::util::str_eq;

verus! {

/// Lifecycle state of one asset in the pipeline.
#[derive(Debug, Clone, Copy, PartialEq, Eq, Structural)]
pub enum ProcessingStatus {
    Queued,
    Processing,
    Completed,
    Failed,
    Cancelled,
}

/// What a status serialises to in the persistent store.
pub open spec fn status_name(s: ProcessingStatus) -> Seq<char> {
    match s {
        ProcessingStatus::Queued => "queued"@,
        ProcessingStatus::Processing => "processing"@,
        ProcessingStatus::Completed => "completed"@,
        ProcessingStatus::Failed => "failed"@,
        ProcessingStatus::Cancelled => "cancelled"@,
    }
}

/// The status a stored name decodes to; unknown names decode to `Failed`.
pub open spec fn status_of_name(s: Seq<char>) -> ProcessingStatus {
    if s == "queued"@ {
        ProcessingStatus::Queued
    } else if s == "processing"@ {
        ProcessingStatus::Processing
    } else if s == "completed"@ {
        ProcessingStatus::Completed
    } else if s == "cancelled"@ {
        ProcessingStatus::Cancelled
    } else {
        ProcessingStatus::Failed
    }
}

impl ProcessingStatus {
    pub fn to_string(&self) -> (r: String)
        ensures
            r@ == status_name(*self),
    {
        match self {
            ProcessingStatus::Queued => "queued".to_owned(),
            ProcessingStatus::Processing => "processing".to_owned(),
            ProcessingStatus::Completed => "completed".to_owned(),
            ProcessingStatus::Failed => "failed".to_owned(),
            ProcessingStatus::Cancelled => "cancelled".to_owned(),
        }
    }

    pub fn from_string(s: &str) -> (r: Self)
        ensures
            r == status_of_name(s@),
    {
        if str_eq(s, "queued") {
            ProcessingStatus::Queued
        } else if str_eq(s, "processing") {
            ProcessingStatus::Processing
        } else if str_eq(s, "completed") {
            ProcessingStatus::Completed
        } else if str_eq(s, "cancelled") {
            ProcessingStatus::Cancelled
        } else {
            ProcessingStatus::Failed
        }
    }
}

/// Kind of one artifact: the upload itself or one derived output.
#[derive(Debug, Clone, Copy, PartialEq, Eq, Structural)]
pub enum AssetType {
    Original,
    StemPiano,
    StemVocals,
    StemDrums,
    StemBass,
    Midi,
    Pdf,
}

/// What a kind serialises to in the persistent store.
pub open spec fn asset_type_name(t: AssetType) -> Seq<char> {
    match t {
        AssetType::Original => "original"@,
        AssetType::StemPiano => "stem_piano"@,
        AssetType::StemVocals => "stem_vocals"@,
        AssetType::StemDrums => "stem_drums"@,
        AssetType::StemBass => "stem_bass"@,
        AssetType::Midi => "midi"@,
        AssetType::Pdf => "pdf"@,
    }
}

/// The kind a stored name decodes to; unknown names decode to `Original`.
pub open spec fn asset_type_of_name(s: Seq<char>) -> AssetType {
    if s == "original"@ {
        AssetType::Original
    } else if s == "stem_piano"@ {
        AssetType::StemPiano
    } else if s == "stem_vocals"@ {
        AssetType::StemVocals
    } else if s == "stem_drums"@ {
        AssetType::StemDrums
    } else if s == "stem_bass"@ {
        AssetType::StemBass
    } else if s == "midi"@ {
        AssetType::Midi
    } else if s == "pdf"@ {
        AssetType::Pdf
    } else {
        AssetType::Original
    }
}

impl AssetType {
    pub fn to_string(&self) -> (r: String)
        ensures
            r@ == asset_type_name(*self),
    {
        match self {
            AssetType::Original => "original".to_owned(),
            AssetType::StemPiano => "stem_piano".to_owned(),
            AssetType::StemVocals => "stem_vocals".to_owned(),
            AssetType::StemDrums => "stem_drums".to_owned(),
            AssetType::StemBass => "stem_bass".to_owned(),
            AssetType::Midi => "midi".to_owned(),
            AssetType::Pdf => "pdf".to_owned(),
        }
    }

    pub fn from_string(s: &str) -> (r: Self)
        ensures
            r == asset_type_of_name(s@),
    {
        if str_eq(s, "original") {
            AssetType::Original
        } else if str_eq(s, "stem_piano") {
            AssetType::StemPiano
        } else if str_eq(s, "stem_vocals") {
            AssetType::StemVocals
        } else if str_eq(s, "stem_drums") {
            AssetType::StemDrums
        } else if str_eq(s, "stem_bass") {
            AssetType::StemBass
        } else if str_eq(s, "midi") {
            AssetType::Midi
        } else if str_eq(s, "pdf") {
            AssetType::Pdf
        } else {
            AssetType::Original
        }
    }
}

/// The furthest pipeline stage a user can ask a file to reach.
#[derive(Debug, Clone, Copy, PartialEq, Eq, Structural)]
pub enum Stage {
    Stems,
    Midi,
    Pdf,
}

/// What a stage serialises to.
pub open spec fn stage_name(t: Stage) -> Seq<char> {
    match t {
        Stage::Stems => "stems"@,
        Stage::Midi => "midi"@,
        Stage::Pdf => "pdf"@,
    }
}

/// The stage a request names, or `None` for an invalid stage name.
pub open spec fn stage_of_name(s: Seq<char>) -> Option<Stage> {
    if s == "stems"@ {
        Some(Stage::Stems)
    } else if s == "midi"@ {
        Some(Stage::Midi)
    } else if s == "pdf"@ {
        Some(Stage::Pdf)
    } else {
        None
    }
}

impl Stage {
    pub fn to_string(&self) -> (r: String)
        ensures
            r@ == stage_name(*self),
    {
        match self {
            Stage::Stems => "stems".to_owned(),
            Stage::Midi => "midi".to_owned(),
            Stage::Pdf => "pdf".to_owned(),
        }
    }

    pub fn from_string(s: &str) -> (r: Option<Self>)
        ensures
            r == stage_of_name(s@),
    {
        if str_eq(s, "stems") {
            Some(Stage::Stems)
        } else if str_eq(s, "midi") {
            Some(Stage::Midi)
        } else if str_eq(s, "pdf") {
            Some(Stage::Pdf)
        } else {
            None
        }
    }
}

/// One uploaded source recording.
#[derive(Debug)]
pub struct FileRecord {
    pub id: String,
    pub original_filename: String,
    pub created_at: i64,
    /// The furthest stage the user currently wants reached, if any.
    pub target_stage: Option<Stage>,
}

/// One artifact: the original upload or a derived output.
#[derive(Debug)]
pub struct Asset {
    pub id: String,
    pub file_id: String,
    pub parent_asset_id: Option<String>,
    pub asset_type: AssetType,
    pub file_path: String,
    pub status: ProcessingStatus,
    pub error_message: Option<String>,
    pub created_at: i64,
}

impl Clone for FileRecord {
    fn clone(&self) -> (r: Self)
        ensures
            r == *self,
    {
        let r = FileRecord {
            id: self.id.clone(),
            original_filename: self.original_filename.clone(),
            created_at: self.created_at,
            target_stage: self.target_stage,
        };
        r
    }
}

impl Clone for Asset {
    fn clone(&self) -> (r: Self)
        ensures
            r == *self,
    {
        let r = Asset {
            id: self.id.clone(),
            file_id: self.file_id.clone(),
            parent_asset_id: self.parent_asset_id.clone(),
            asset_type: self.asset_type,
            file_path: self.file_path.clone(),
            status: self.status,
            error_message: self.error_message.clone(),
            created_at: self.created_at,
        };
        r
    }
}

/// One outward progress notification, as shown to a subscriber.
#[derive(Debug)]
pub struct LoadingState {
    pub title: String,
    pub description: String,
    pub progress: Option<u32>,
}

impl Clone for LoadingState {
    fn clone(&self) -> (r: Self)
        ensures
            r == *self,
    {
        let r = LoadingState {
            title: self.title.clone(),
            description: self.description.clone(),
            progress: self.progress,
        };
        r
    }
}

} // verus!
