//! The records that the explorer shows and the registry of configured
//! clouds.
use vstd::prelude::*;
use crate::text::{chars_of, string_of, trim_end, trim_end_chars};
pub use crate::webdav::extract_xml;

verus! {

// ---------------------------------------------------------------------
// Records
// ---------------------------------------------------------------------

/// A configured OpenCloud instance.
#[derive(Debug)]
pub struct CloudConfig {
    pub name: String,
    pub url: String,
    pub bearer: Option<String>,
}

/// A drive ("space") of an OpenCloud instance.
#[derive(Debug)]
pub struct Space {
    pub id: String,
    pub name: String,
    pub drive_type: String,
}

/// An entry of a folder listing.
#[derive(Debug)]
pub struct FileItem {
    pub id: String,
    pub name: String,
    pub size: u64,
    pub mime_type: String,
    pub is_folder: bool,
    pub last_modified: String,
}

/// The signed-in user.
#[derive(Debug)]
pub struct UserInfo {
    pub name: String,
}

/// The mathematical value of a `CloudConfig`.
pub struct CloudModel {
    pub name: Seq<char>,
    pub url: Seq<char>,
    pub bearer: Option<Seq<char>>,
}

/// The mathematical value of a `Space`.
pub struct SpaceModel {
    pub id: Seq<char>,
    pub name: Seq<char>,
    pub drive_type: Seq<char>,
}

/// The mathematical value of a `FileItem`.
pub struct FileModel {
    pub id: Seq<char>,
    pub name: Seq<char>,
    pub size: u64,
    pub mime_type: Seq<char>,
    pub is_folder: bool,
    pub last_modified: Seq<char>,
}

/// The characters of an optional string.
pub open spec fn opt_view(o: Option<String>) -> Option<Seq<char>> {
    match o {
        Some(s) => Some(s@),
        None => None,
    }
}

impl View for CloudConfig {
    type V = CloudModel;

    open spec fn view(&self) -> CloudModel {
        CloudModel { name: self.name@, url: self.url@, bearer: opt_view(self.bearer) }
    }
}

impl View for Space {
    type V = SpaceModel;

    open spec fn view(&self) -> SpaceModel {
        SpaceModel { id: self.id@, name: self.name@, drive_type: self.drive_type@ }
    }
}

impl View for FileItem {
    type V = FileModel;

    open spec fn view(&self) -> FileModel {
        FileModel {
            id: self.id@,
            name: self.name@,
            size: self.size,
            mime_type: self.mime_type@,
            is_folder: self.is_folder,
            last_modified: self.last_modified@,
        }
    }
}

impl View for UserInfo {
    type V = Seq<char>;

    open spec fn view(&self) -> Seq<char> {
        self.name@
    }
}

/// The values of a sequence of cloud configurations.
pub open spec fn cloud_views(v: Seq<CloudConfig>) -> Seq<CloudModel> {
    v.map_values(|c: CloudConfig| c@)
}

/// The values of a sequence of spaces.
pub open spec fn space_views(v: Seq<Space>) -> Seq<SpaceModel> {
    v.map_values(|s: Space| s@)
}

/// The values of a sequence of folder entries.
pub open spec fn file_views(v: Seq<FileItem>) -> Seq<FileModel> {
    v.map_values(|f: FileItem| f@)
}

/// A copy of an optional string.
fn copy_opt(o: &Option<String>) -> (r: Option<String>)
    ensures
        opt_view(r) == opt_view(*o),
{
    match o {
        Some(s) => Some(s.clone()),
        None => None,
    }
}

impl CloudConfig {
    /// A copy of this configuration.
    pub fn duplicate(&self) -> (r: CloudConfig)
        ensures
            r@ == self@,
    {
        CloudConfig { name: self.name.clone(), url: self.url.clone(), bearer: copy_opt(&self.bearer) }
    }
}

impl Space {
    /// A copy of this space.
    pub fn duplicate(&self) -> (r: Space)
        ensures
            r@ == self@,
    {
        Space { id: self.id.clone(), name: self.name.clone(), drive_type: self.drive_type.clone() }
    }
}

impl FileItem {
    /// A copy of this entry.
    pub fn duplicate(&self) -> (r: FileItem)
        ensures
            r@ == self@,
    {
        FileItem {
            id: self.id.clone(),
            name: self.name.clone(),
            size: self.size,
            mime_type: self.mime_type.clone(),
            is_folder: self.is_folder,
            last_modified: self.last_modified.clone(),
        }
    }
}

/// Copies of every configuration in `v`, in order.
pub fn copy_clouds(v: &Vec<CloudConfig>) -> (r: Vec<CloudConfig>)
    ensures
        cloud_views(r@) == cloud_views(v@),
{
    let mut r: Vec<CloudConfig> = Vec::new();
    let mut i: usize = 0;
    while i < v.len()
        invariant
            i <= v@.len(),
            cloud_views(r@) == cloud_views(v@).take(i as int),
        decreases v@.len() - i,
    {
        let c = v[i].duplicate();
        proof {
            assert(cloud_views(r@.push(c)) =~= cloud_views(r@).push(c@));
            assert(cloud_views(v@).take(i + 1) =~= cloud_views(v@).take(i as int).push(v@[i as int]@));
        }
        r.push(c);
        i = i + 1;
    }
    assert(cloud_views(v@).take(v@.len() as int) =~= cloud_views(v@));
    r
}

// ---------------------------------------------------------------------
// The registry of configured clouds
// ---------------------------------------------------------------------

/// The list of configured clouds, in the order in which they were added.
pub struct CloudState {
    clouds: Vec<CloudConfig>,
}

impl View for CloudState {
    type V = Seq<CloudModel>;

    closed spec fn view(&self) -> Seq<CloudModel> {
        cloud_views(self.clouds@)
    }
}

/// The configuration that adding a cloud with `name` and `url` creates: the
/// URL without trailing slashes, and no token.
pub open spec fn new_cloud(name: Seq<char>, url: Seq<char>) -> CloudModel {
    CloudModel { name, url: trim_end(url, '/'), bearer: None }
}

/// The list after removing position `index`; unchanged when there is none.
pub open spec fn without(clouds: Seq<CloudModel>, index: int) -> Seq<CloudModel> {
    if 0 <= index < clouds.len() {
        clouds.remove(index)
    } else {
        clouds
    }
}

/// The list after giving the cloud at `index` the token `token`; unchanged
/// when there is no such cloud.
pub open spec fn with_bearer(clouds: Seq<CloudModel>, index: int, token: Seq<char>) -> Seq<
    CloudModel,
> {
    if 0 <= index < clouds.len() {
        clouds.update(
            index,
            CloudModel { name: clouds[index].name, url: clouds[index].url, bearer: Some(token) },
        )
    } else {
        clouds
    }
}

impl CloudState {
    /// An empty registry.
    pub fn new() -> (r: CloudState)
        ensures
            r@ == Seq::<CloudModel>::empty(),
    {
        let r = CloudState { clouds: Vec::new() };
        assert(r@ =~= Seq::<CloudModel>::empty());
        r
    }

    /// Copies of the configured clouds, in order.
    pub fn clouds(&self) -> (r: Vec<CloudConfig>)
        ensures
            cloud_views(r@) == self@,
    {
        copy_clouds(&self.clouds)
    }

    /// Replaces the registry with `clouds` (as read from disk) and returns
    /// copies of them.
    pub fn load(&mut self, clouds: Vec<CloudConfig>) -> (r: Vec<CloudConfig>)
        ensures
            final(self)@ == cloud_views(clouds@),
            cloud_views(r@) == cloud_views(clouds@),
    {
        let r = copy_clouds(&clouds);
        self.clouds = clouds;
        r
    }

    /// Appends a cloud named `name` at `url` (trailing slashes removed),
    /// without a token, and returns copies of all clouds.
    pub fn add(&mut self, name: String, url: &str) -> (r: Vec<CloudConfig>)
        ensures
            final(self)@ == old(self)@.push(new_cloud(name@, url@)),
            cloud_views(r@) == final(self)@,
    {
        let chars = chars_of(url);
        let trimmed = trim_end_chars(chars.as_slice(), '/');
        let c = CloudConfig { name, url: string_of(trimmed.as_slice()), bearer: None };
        let ghost m = c@;
        self.clouds.push(c);
        assert(cloud_views(self.clouds@) =~= cloud_views(old(self).clouds@).push(m));
        self.clouds()
    }

    /// Removes the cloud at `index`; returns whether there was one.
    pub fn remove(&mut self, index: usize) -> (removed: bool)
        ensures
            removed == (index < old(self)@.len()),
            final(self)@ == without(old(self)@, index as int),
    {
        if index < self.clouds.len() {
            let ghost before = self.clouds@;
            self.clouds.remove(index);
            assert(cloud_views(self.clouds@) =~= cloud_views(before).remove(index as int));
            true
        } else {
            false
        }
    }

    /// Gives the cloud at `index` the token `token`; returns whether there
    /// was such a cloud.
    pub fn update_bearer(&mut self, index: usize, token: String) -> (updated: bool)
        ensures
            updated == (index < old(self)@.len()),
            final(self)@ == with_bearer(old(self)@, index as int, token@),
    {
        if index < self.clouds.len() {
            let ghost before = self.clouds@;
            let c = &self.clouds[index];
            let nc = CloudConfig { name: c.name.clone(), url: c.url.clone(), bearer: Some(token) };
            let ghost m = nc@;
            self.clouds.set(index, nc);
            assert(cloud_views(self.clouds@) =~= cloud_views(before).update(index as int, m));
            true
        } else {
            false
        }
    }
}

// ---------------------------------------------------------------------
// Laws of the registry
// ---------------------------------------------------------------------

/// A cloud added with any URL is stored without a trailing slash.
pub proof fn law_added_url_has_no_trailing_slash(name: Seq<char>, url: Seq<char>)
    ensures
        new_cloud(name, url).url.len() == 0 || new_cloud(name, url).url.last() != '/',
{
    crate::text::law_trim_end_no_trailing(url, '/');
}

/// Adding a cloud and then removing the last one restores the list.
pub proof fn law_add_then_remove_last(clouds: Seq<CloudModel>, name: Seq<char>, url: Seq<char>)
    ensures
        without(clouds.push(new_cloud(name, url)), clouds.len() as int) == clouds,
{
    assert(clouds.push(new_cloud(name, url)).remove(clouds.len() as int) =~= clouds);
}

/// Setting a token changes no name, URL, other token or the number of
/// clouds, and the cloud at `index` then holds `token`.
pub proof fn law_bearer_changes_only_that_token(
    clouds: Seq<CloudModel>,
    index: int,
    token: Seq<char>,
)
    ensures
        with_bearer(clouds, index, token).len() == clouds.len(),
        forall|k: int|
            0 <= k < clouds.len() ==> #[trigger] with_bearer(clouds, index, token)[k].name
                == clouds[k].name && with_bearer(clouds, index, token)[k].url == clouds[k].url,
        forall|k: int|
            0 <= k < clouds.len() && k != index ==> #[trigger] with_bearer(clouds, index, token)[k]
                == clouds[k],
        0 <= index < clouds.len() ==> with_bearer(clouds, index, token)[index].bearer == Some(
            token,
        ),
{
}

/// Of two tokens set on the same cloud, the later one stays.
pub proof fn law_bearer_last_wins(
    clouds: Seq<CloudModel>,
    index: int,
    first: Seq<char>,
    second: Seq<char>,
)
    ensures
        with_bearer(with_bearer(clouds, index, first), index, second) == with_bearer(
            clouds,
            index,
            second,
        ),
{
    if 0 <= index < clouds.len() {
        assert(with_bearer(with_bearer(clouds, index, first), index, second) =~= with_bearer(
            clouds,
            index,
            second,
        ));
    }
}

/// Removing a cloud keeps the others in their order.
pub proof fn law_remove_keeps_order(clouds: Seq<CloudModel>, index: int)
    requires
        0 <= index < clouds.len(),
    ensures
        without(clouds, index).len() == clouds.len() - 1,
        forall|k: int| 0 <= k < index ==> #[trigger] without(clouds, index)[k] == clouds[k],
        forall|k: int|
            index <= k < clouds.len() - 1 ==> #[trigger] without(clouds, index)[k] == clouds[k + 1],
{
}

} // verus!
