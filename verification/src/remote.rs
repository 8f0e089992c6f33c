//! Downloading repositories: what to send, and what to make of the reply.
use crate::environment::lists_id;
use crate::errors::AddRepositoryErr;
use crate::ordered_map::Entries;
use crate::structs::{
    count_texts, optional_text, text_at, text_entries, DownloadRecord, LocalCachedRepository,
    Repository, UserRepoSetting,
};
use crate::text::same_text;
use indexmap::IndexMap;
use std::path::PathBuf;
use vstd::prelude::*;
use vstd::string::StringExecFns;

verus! {

/// The header fields to send: the entity tag of the copy at hand, then `headers` in order.
pub open spec fn request_fields(
    headers: Option<Entries<String>>,
    etag: Option<Seq<char>>,
) -> Seq<(Seq<char>, Seq<char>)> {
    (match etag {
        Some(tag) => seq![("If-None-Match"@, tag)],
        None => seq![],
    }) + (match headers {
        Some(fields) => fields.map_values(|field: (Seq<char>, String)| (field.0, field.1@)),
        None => seq![],
    })
}

/// The model of a list of header fields.
pub open spec fn field_views(fields: Seq<(String, String)>) -> Seq<(Seq<char>, Seq<char>)> {
    fields.map_values(|field: (String, String)| (field.0@, field.1@))
}

/// The header fields to send with the download of a repository.
pub fn request_headers(headers: Option<&IndexMap<String, String>>, etag: Option<&str>) -> (fields:
    Vec<(String, String)>)
    ensures
        field_views(fields@) == request_fields(
            (match headers {
                Some(map) => Some(text_entries(*map)),
                None => None,
            }),
            (match etag {
                Some(tag) => Some(tag@),
                None => None,
            }),
        ),
{
    let mut fields: Vec<(String, String)> = Vec::new();
    if let Some(tag) = etag {
        fields.push(("If-None-Match".to_owned(), tag.to_owned()));
    }
    let ghost first = field_views(fields@);
    proof {
        match etag {
            Some(tag) => {
                assert(first =~= seq![("If-None-Match"@, tag@)]);
            },
            None => {
                assert(first =~= seq![]);
            },
        }
    }
    if let Some(map) = headers {
        let ghost entries = text_entries(*map);
        let ghost more = entries.map_values(|field: (Seq<char>, String)| (field.0, field.1@));
        let count = count_texts(map);
        let mut i: usize = 0;
        proof {
            assert(first + more.take(0) =~= first);
        }
        while i < count
            invariant
                i <= count,
                count == entries.len(),
                entries == text_entries(*map),
                more == entries.map_values(|field: (Seq<char>, String)| (field.0, field.1@)),
                field_views(fields@) == first + more.take(i as int),
            decreases count - i,
        {
            let ghost before = fields@;
            if let Some((name, value)) = text_at(map, i) {
                fields.push((name.clone(), value.clone()));
                proof {
                    assert(field_views(fields@) =~= field_views(before).push((name@, value@)));
                    assert(more[i as int] == (name@, value@));
                    assert(first + more.take(i + 1) =~= (first + more.take(i as int)).push(
                        more[i as int],
                    ));
                }
            }
            i += 1;
        }
        proof {
            assert(more.take(i as int) =~= more);
        }
    } else {
        proof {
            assert(first + Seq::<(Seq<char>, Seq<char>)>::empty() =~= first);
        }
    }
    fields
}

/// Whether a reply says that the copy at hand is up to date: only where its entity tag was
/// sent.
pub fn is_not_modified(etag_sent: bool, status: u16) -> (unmodified: bool)
    ensures
        unmodified == (etag_sent && status == 304),
{
    etag_sent && status == 304
}

/// How the download of a repository ended.
#[derive(Debug)]
pub enum DownloadOutcome {
    /// The copy at hand is up to date.
    NotModified,
    /// A new copy, with its entity tag if there is one.
    Downloaded(Repository, Option<String>),
    /// The download failed.
    Failed,
}

impl DownloadOutcome {
    /// A repository that was downloaded holds no package twice.
    pub open spec fn well_formed(self) -> bool {
        self matches DownloadOutcome::Downloaded(repo, _) ==> repo.well_formed()
    }
}

/// The repository that was downloaded from `url`: it knows where it came from.
pub fn downloaded_repository(repo: Repository, url: String) -> (downloaded: Repository)
    ensures
        downloaded.url == (match repo.url {
            Some(known) => Some(known),
            None => Some(url),
        }),
        downloaded.name == repo.name,
        downloaded.id == repo.id,
        downloaded.packages == repo.packages,
        repo.well_formed() ==> downloaded.well_formed(),
{
    let mut downloaded = repo;
    downloaded.set_url_if_none(url);
    downloaded
}

/// Where to download a cached repository from again; `None` where nothing is to be done.
pub fn update_address(repo: &LocalCachedRepository) -> (url: Option<String>)
    ensures
        optional_text(url) == optional_text(repo.repo.url),
{
    match &repo.repo.url {
        Some(url) => Some(url.clone()),
        None => None,
    }
}

/// Takes the outcome of a download into the cached repository.
pub fn update_from_remote(repo: &mut LocalCachedRepository, outcome: DownloadOutcome)
    ensures
        final(repo).headers == old(repo).headers,
        old(repo).repo.well_formed() && outcome.well_formed() ==> final(repo).repo.well_formed(),
        (match outcome {
            DownloadOutcome::Downloaded(remote, etag) => {
                &&& final(repo).repo == remote
                &&& final(repo).etag() == (match etag {
                    Some(tag) => Some(tag@),
                    None => match old(repo).etag() {
                        Some(_) => Some(Seq::<char>::empty()),
                        None => None,
                    },
                })
            },
            _ => *final(repo) == *old(repo),
        }),
{
    match outcome {
        DownloadOutcome::Downloaded(remote, etag) => {
            repo.repo = remote;
            match etag {
                Some(tag) => {
                    repo.set_etag(tag);
                },
                None => {
                    if repo.vrc_get.is_some() {
                        repo.vrc_get = Some(DownloadRecord { etag: String::new() });
                    }
                },
            }
        },
        DownloadOutcome::NotModified => {},
        DownloadOutcome::Failed => {},
    }
}

/// The byte may stand in the name of a file that is named after a repository.
pub open spec fn is_file_name_byte(byte: u8) -> bool {
    ||| 0x30 <= byte <= 0x39
    ||| 0x61 <= byte <= 0x7a
    ||| 0x41 <= byte <= 0x5a
    ||| byte == 0x2e
    ||| byte == 0x5f
    ||| byte == 0x2d
}

/// A file can be named after the identity `id`: it has one byte or more, and all are digits,
/// Latin letters, dots, underscores or hyphens.
pub open spec fn is_file_name(id: Seq<u8>) -> bool {
    id.len() > 0 && forall|i: int| 0 <= i < id.len() ==> is_file_name_byte(#[trigger] id[i])
}

/// Whether a file can be named after the identity `id`.
pub fn is_id_name_for_file(id: &str) -> (usable: bool)
    ensures
        usable == is_file_name(vstd::utf8::encode_utf8(id@)),
{
    let bytes = id.as_bytes();
    if bytes.len() == 0 {
        return false;
    }
    let mut i: usize = 0;
    while i < bytes.len()
        invariant
            i <= bytes@.len(),
            bytes@ == vstd::utf8::encode_utf8(id@),
            forall|j: int| 0 <= j < i ==> is_file_name_byte(#[trigger] bytes@[j]),
        decreases bytes@.len() - i,
    {
        let byte = bytes[i];
        let usable = (0x30 <= byte && byte <= 0x39) || (0x61 <= byte && byte <= 0x7a) || (0x41
            <= byte && byte <= 0x5a) || byte == 0x2e || byte == 0x5f || byte == 0x2d;
        if !usable {
            assert(!is_file_name_byte(bytes@[i as int]));
            return false;
        }
        i += 1;
    }
    true
}

/// A downloaded repository that is to be added to the user's list.
#[derive(Debug)]
pub struct NewRepository {
    /// What to write to the file of the cached copy.
    pub cache: LocalCachedRepository,
    /// The name to show: the one that the user gave, else the repository's own.
    pub name: Option<String>,
    pub id: Option<String>,
    /// The name of a file to try first for the cached copy.
    pub file_name: Option<String>,
}

/// The name of the file to try first for a repository of identity `id`.
pub open spec fn preferred_file(id: Option<Seq<char>>) -> Option<Seq<char>> {
    match id {
        Some(text) => if is_file_name(vstd::utf8::encode_utf8(text)) {
            Some(text + ".json"@)
        } else {
            None
        },
        None => None,
    }
}

/// The name of the file of a cached copy that is not named after its repository: `uuid`, which
/// is to be a new one.
pub fn fallback_file(uuid: &str) -> (name: String)
    ensures
        name@ == uuid@ + ".json"@,
{
    let mut name = uuid.to_owned();
    name.append(".json");
    name
}

/// The name of the file of a cached copy: the preferred one, if there is one and its file could
/// be `created`, else the one that is named after `uuid`.
pub fn cache_file(preferred: Option<&str>, created: bool, uuid: &str) -> (name: String)
    ensures
        name@ == (match preferred {
            Some(file) => if created {
                file@
            } else {
                uuid@ + ".json"@
            },
            None => uuid@ + ".json"@,
        }),
{
    match preferred {
        Some(file) => if created {
            file.to_owned()
        } else {
            fallback_file(uuid)
        },
        None => fallback_file(uuid),
    }
}

/// Takes a downloaded repository, unless one of its identity is in the user's list.
pub fn accept_downloaded_repo(
    user_repos: &Vec<UserRepoSetting>,
    name: Option<String>,
    headers: IndexMap<String, String>,
    remote: Repository,
    etag: Option<String>,
) -> (accepted: Result<NewRepository, AddRepositoryErr>)
    ensures
        (match accepted {
            Err(error) => {
                &&& error is AlreadyAdded
                &&& optional_text(remote.id) matches Some(id)
                &&& lists_id(user_repos@, id)
            },
            Ok(new) => {
                &&& optional_text(remote.id) matches Some(id) ==> !lists_id(user_repos@, id)
                &&& new.cache.repo == remote
                &&& new.cache.headers == headers
                &&& new.cache.etag() == optional_text(etag)
                &&& optional_text(new.name) == (match name {
                    Some(given) => Some(given@),
                    None => optional_text(remote.name),
                })
                &&& optional_text(new.id) == optional_text(remote.id)
                &&& optional_text(new.file_name) == preferred_file(optional_text(remote.id))
            },
        }),
{
    if let Some(id) = &remote.id {
        let mut i: usize = 0;
        while i < user_repos.len()
            invariant
                i <= user_repos.len(),
                forall|j: int|
                    0 <= j < i ==> optional_text((#[trigger] user_repos@[j]).id) != Some(id@),
                remote.id == Some(*id),
            decreases user_repos.len() - i,
        {
            if let Some(known) = &user_repos[i].id {
                if same_text(known.as_str(), id.as_str()) {
                    return Err(AddRepositoryErr::AlreadyAdded);
                }
            }
            i += 1;
        }
    }
    let name = match name {
        Some(given) => Some(given),
        None => match &remote.name {
            Some(own) => Some(own.clone()),
            None => None,
        },
    };
    let id = match &remote.id {
        Some(own) => Some(own.clone()),
        None => None,
    };
    let file_name = match &remote.id {
        Some(own) => if is_id_name_for_file(own.as_str()) {
            let mut file = own.clone();
            file.append(".json");
            Some(file)
        } else {
            None
        },
        None => None,
    };
    let mut cache = LocalCachedRepository::new(remote, headers);
    if let Some(tag) = etag {
        cache.set_etag(tag);
    }
    Ok(NewRepository { cache, name, id, file_name })
}

impl NewRepository {
    /// The entry of the user's list for this repository, once its cached copy is at
    /// `local_path`.
    pub fn into_setting(self, local_path: PathBuf, url: String) -> (setting: UserRepoSetting)
        ensures
            setting.local_path == local_path,
            setting.name == self.name,
            setting.url == Some(url),
            setting.id == self.id,
    {
        UserRepoSetting::new(local_path, self.name, Some(url), self.id)
    }
}

/// A file that is named after a repository lies in the folder where it is put: its name holds
/// no separator of folders.
pub proof fn law_file_name_has_no_separator(id: Seq<u8>)
    requires
        is_file_name(id),
    ensures
        forall|i: int| 0 <= i < id.len() ==> #[trigger] id[i] != 0x2f && id[i] != 0x5c,
{
    assert forall|i: int| 0 <= i < id.len() implies #[trigger] id[i] != 0x2f && id[i] != 0x5c by {
        assert(is_file_name_byte(id[i]));
    }
}

} // verus!
