//! Where the archive of a download is kept as a file.

use vstd::prelude::*;

use crate::downloader_builder::HttpDownloadConfig;
use crate::extensions::breakpoint_resume::DownloadDataArchiverBuilder;
use crate::paths;

verus! {

/// Where to keep the archive.
#[derive(Debug)]
pub enum ArchiveFilePath<T: std::fmt::Display> {
    /// At this path.
    Absolute(String),
    /// Beside the file that is downloaded, with this suffix.
    Suffix(T),
}

/// Whether `text` is how `value` is displayed.
pub open spec fn is_display_of<T: std::fmt::Display>(value: T, text: String) -> bool {
    vstd::string::to_string_from_display_ensures::<T>(&value, text)
}

impl<T: std::fmt::Display> ArchiveFilePath<T> {
    /// Whether a suffix, however it is displayed, has no separator.
    pub open spec fn valid(self) -> bool {
        self matches ArchiveFilePath::Suffix(suffix) ==> forall|text: String| #[trigger]
            is_display_of(suffix, text) ==> paths::has_no_separator(text@)
    }

    /// The path of the archive of a download to `origin_file`.
    pub fn get_file_path(self, origin_file: &str) -> (r: String)
        requires
            self.valid(),
        ensures
            match self {
                ArchiveFilePath::Absolute(path) => r@ == path@,
                ArchiveFilePath::Suffix(suffix) => exists|text: String|
                    {
                        &&& #[trigger] is_display_of(suffix, text)
                        &&& paths::is_suffixed(origin_file@, text@, r@)
                    },
            },
    {
        match self {
            ArchiveFilePath::Absolute(path) => path,
            ArchiveFilePath::Suffix(suffix) => {
                let text = suffix.to_string();
                assert(is_display_of(suffix, text));
                paths::path_with_suffix(origin_file, text.as_str())
            },
        }
    }

    /// The path of the archive of a download to `origin_file`, unless a suffix has a separator.
    pub fn try_get_file_path(self, origin_file: &str) -> (r: Option<String>)
        ensures
            match self {
                ArchiveFilePath::Absolute(path) => r matches Some(text) && text@ == path@,
                ArchiveFilePath::Suffix(suffix) => exists|text: String|
                    {
                        &&& #[trigger] is_display_of(suffix, text)
                        &&& r is Some <==> paths::has_no_separator(text@)
                        &&& r is Some ==> paths::is_suffixed(origin_file@, text@, r->Some_0@)
                    },
            },
    {
        match self {
            ArchiveFilePath::Absolute(path) => Some(path),
            ArchiveFilePath::Suffix(suffix) => {
                let text = suffix.to_string();
                assert(is_display_of(suffix, text));
                if paths::lacks_separator(text.as_str()) {
                    Some(paths::path_with_suffix(origin_file, text.as_str()))
                } else {
                    None
                }
            },
        }
    }
}

/// Makes the archiver of a download.
#[derive(Debug)]
pub struct BsonFileArchiverBuilder<T: std::fmt::Display> {
    pub archive_file_path: ArchiveFilePath<T>,
}

impl<T: std::fmt::Display> BsonFileArchiverBuilder<T> {
    /// An archiver that keeps the archive there.
    pub fn new(archive_file_path: ArchiveFilePath<T>) -> (r: Self)
        ensures
            r.archive_file_path == archive_file_path,
    {
        Self { archive_file_path }
    }

    /// The archiver of this download, unless a suffix has a separator.
    pub fn try_build(self, config: &HttpDownloadConfig) -> (r: Option<BsonFileArchiver>)
        ensures
            match self.archive_file_path {
                ArchiveFilePath::Absolute(path) => r matches Some(archiver)
                    && archiver.archive_file_path@ == path@,
                ArchiveFilePath::Suffix(suffix) => exists|text: String|
                    {
                        &&& #[trigger] is_display_of(suffix, text)
                        &&& r is Some <==> paths::has_no_separator(text@)
                        &&& r matches Some(archiver) ==> is_archive_path(
                            *config,
                            text@,
                            archiver.archive_file_path@,
                        )
                    },
            },
    {
        let file_path = config.file_path();
        match self.archive_file_path.try_get_file_path(file_path.as_str()) {
            Some(archive_file_path) => Some(BsonFileArchiver { archive_file_path }),
            None => None,
        }
    }
}

/// Whether `path` may be that of an archive that stands with this suffix beside the file that is
/// downloaded.
pub open spec fn is_archive_path(
    config: HttpDownloadConfig,
    suffix: Seq<char>,
    path: Seq<char>,
) -> bool {
    exists|file_path: Seq<char>|
        {
            &&& #[trigger] config.is_file_path(file_path)
            &&& paths::is_suffixed(file_path, suffix, path)
        }
}

/// The archive stands beside the file that is downloaded, in the same directory, and is another
/// file: its name is that of the file with the suffix behind it, whatever separator the platform
/// has. If the name of the file has no extension, there are two dots, or the platform sees an
/// extension further to the front.
pub proof fn law_archive_stands_beside_the_file(
    config: HttpDownloadConfig,
    suffix: Seq<char>,
    path: Seq<char>,
)
    requires
        paths::is_plain_name(config.file_name@),
        config.save_dir@ != seq!['\\'],
        !paths::starts_with_two_separators(config.save_dir@),
        is_archive_path(config, suffix, path),
    ensures
        exists|file_path: Seq<char>|
            {
                &&& #[trigger] config.is_file_path(file_path)
                &&& paths::is_suffixed(file_path, suffix, path)
                &&& paths::extension_of(config.file_name@) is Some ==> path == file_path + seq!['.']
                    + suffix
                &&& path != file_path
            },
{
    let dir = config.save_dir@;
    let name = config.file_name@;
    let file_path = choose|file_path: Seq<char>|
        {
            &&& #[trigger] config.is_file_path(file_path)
            &&& paths::is_suffixed(file_path, suffix, path)
        };
    assert(paths::can_join(dir, name)) by {
        if paths::is_verbatim(dir) {
            assert(dir[0] == dir.take(4)[0] && dir[1] == dir.take(4)[1]);
        }
    }
    let front = if dir.len() == 0 {
        dir
    } else if file_path == dir + seq!['/'] + name {
        dir + seq!['/']
    } else if file_path == dir + seq!['\\'] + name {
        dir + seq!['\\']
    } else {
        dir
    };
    assert(file_path =~= front + name);
    assert(paths::is_name_char(name[0])) by {
        assert(name.contains(name[0]));
    }
    paths::lemma_name_behind(front, name);
    assert(!paths::starts_with_two_separators(file_path)) by {
        if dir.len() == 1 && dir[0] == '\\' {
            assert(dir =~= seq!['\\']);
        }
        if dir.len() > 0 {
            assert(front[0] == dir[0]);
        }
        if name.len() >= 2 {
            assert(name.contains(name[1]));
        }
        assert(dir.len() >= 2 ==> file_path[1] == dir[1]);
    }
    paths::lemma_suffixed_is_another(file_path, suffix, path);
}

impl<T: std::fmt::Display> DownloadDataArchiverBuilder for BsonFileArchiverBuilder<T> {
    type DownloadDataArchiver = BsonFileArchiver;

    open spec fn can_build(self) -> bool {
        self.archive_file_path.valid()
    }

    open spec fn builds(self, config: HttpDownloadConfig, archiver: BsonFileArchiver) -> bool {
        match self.archive_file_path {
            ArchiveFilePath::Absolute(path) => archiver.archive_file_path@ == path@,
            ArchiveFilePath::Suffix(suffix) => exists|text: String|
                {
                    &&& #[trigger] is_display_of(suffix, text)
                    &&& is_archive_path(config, text@, archiver.archive_file_path@)
                },
        }
    }

    fn build(self, config: &HttpDownloadConfig) -> (r: BsonFileArchiver) {
        let file_path = config.file_path();
        BsonFileArchiver {
            archive_file_path: self.archive_file_path.get_file_path(file_path.as_str()),
        }
    }
}

/// Keeps the archive of a download as a file.
#[derive(Debug)]
pub struct BsonFileArchiver {
    pub archive_file_path: String,
}

} // verus!
