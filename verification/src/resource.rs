//! Directory layout of data-driven content.
//!
//! Relative to the game root:
//!
//! ```text
//! assets/<namespace>/
//!   lang/en_us.json
//!   textures/<path>.png
//!   font/5x7.json
//!   models/block/<path>.json
//!   models/item/<path>.json
//!   blockstates/<path>.json
//!
//! data/<namespace>/
//!   tags/blocks/<id>.json
//!   tags/items/<id>.json
//!   recipes/<id>.json
//!   loot_tables/blocks/<id>.json
//! ```

use vstd::prelude::*;
use vstd::string::*;

verus! {

/// The tree a resource lives in.
#[derive(Clone, Copy, Debug, PartialEq, Eq, Structural)]
pub enum ResourceDomain {
    Assets,
    Data,
}

/// High-level resource category used to build file paths.
#[derive(Clone, Copy, Debug, PartialEq, Eq, Structural)]
pub enum ResourceCategory {
    Lang,
    Texture,
    Font,
    BlockModel,
    ItemModel,
    Blockstate,
    BlockTag,
    ItemTag,
    Recipe,
    LootTable,
}

/// The subdirectory of a category below its namespace directory.
pub open spec fn category_path(c: ResourceCategory) -> Seq<char> {
    match c {
        ResourceCategory::Lang => "lang"@,
        ResourceCategory::Texture => "textures"@,
        ResourceCategory::Font => "font"@,
        ResourceCategory::BlockModel => "models/block"@,
        ResourceCategory::ItemModel => "models/item"@,
        ResourceCategory::Blockstate => "blockstates"@,
        ResourceCategory::BlockTag => "tags/blocks"@,
        ResourceCategory::ItemTag => "tags/items"@,
        ResourceCategory::Recipe => "recipes"@,
        ResourceCategory::LootTable => "loot_tables/blocks"@,
    }
}

/// Client-side categories live under `assets`, gameplay data under `data`.
pub open spec fn category_domain(c: ResourceCategory) -> ResourceDomain {
    match c {
        ResourceCategory::Lang | ResourceCategory::Texture | ResourceCategory::Font | ResourceCategory::BlockModel
        | ResourceCategory::ItemModel | ResourceCategory::Blockstate => ResourceDomain::Assets,
        ResourceCategory::BlockTag | ResourceCategory::ItemTag | ResourceCategory::Recipe
        | ResourceCategory::LootTable => ResourceDomain::Data,
    }
}

/// The top-level directory of a domain.
pub open spec fn domain_dir(d: ResourceDomain) -> Seq<char> {
    match d {
        ResourceDomain::Assets => "assets"@,
        ResourceDomain::Data => "data"@,
    }
}

impl ResourceCategory {
    /// The subdirectory of this category below its namespace directory.
    pub fn relative_path(&self) -> (r: &'static str)
        ensures
            r@ == category_path(*self),
    {
        match self {
            ResourceCategory::Lang => "lang",
            ResourceCategory::Texture => "textures",
            ResourceCategory::Font => "font",
            ResourceCategory::BlockModel => "models/block",
            ResourceCategory::ItemModel => "models/item",
            ResourceCategory::Blockstate => "blockstates",
            ResourceCategory::BlockTag => "tags/blocks",
            ResourceCategory::ItemTag => "tags/items",
            ResourceCategory::Recipe => "recipes",
            ResourceCategory::LootTable => "loot_tables/blocks",
        }
    }

    /// The tree this category lives in.
    pub fn domain(&self) -> (r: ResourceDomain)
        ensures
            r == category_domain(*self),
    {
        match self {
            ResourceCategory::Lang | ResourceCategory::Texture | ResourceCategory::Font | ResourceCategory::BlockModel
            | ResourceCategory::ItemModel | ResourceCategory::Blockstate => ResourceDomain::Assets,
            ResourceCategory::BlockTag | ResourceCategory::ItemTag | ResourceCategory::Recipe
            | ResourceCategory::LootTable => ResourceDomain::Data,
        }
    }
}

/// `base` followed by the path component `part`: a `/` separates them unless
/// `base` is empty or already ends with one. An absolute `part` (one that
/// starts with `/`) replaces `base`.
pub open spec fn join(base: Seq<char>, part: Seq<char>) -> Seq<char> {
    if part.len() > 0 && part[0] == '/' {
        part
    } else if base.len() == 0 {
        part
    } else if base.last() == '/' {
        base + part
    } else {
        base + seq!['/'] + part
    }
}

/// The file path of a resource: root, domain, namespace, category, file name.
pub open spec fn resource_path(root: Seq<char>, namespace: Seq<char>, category: ResourceCategory, filename: Seq<char>) -> Seq<char> {
    join(join(join(join(root, domain_dir(category_domain(category))), namespace), category_path(category)), filename)
}

fn join_path(base: String, part: &str) -> (r: String)
    ensures
        r@ == join(base@, part@),
{
    let n = base.as_str().unicode_len();
    if part.unicode_len() > 0 && part.get_char(0) == '/' {
        part.to_owned()
    } else if n == 0 {
        part.to_owned()
    } else if base.as_str().get_char(n - 1) == '/' {
        base.concat(part)
    } else {
        let with_sep = base.concat("/");
        proof {
            reveal_strlit("/");
        }
        with_sep.concat(part)
    }
}

/// Locates game content in the asset and data directory trees under a root.
#[derive(Clone, Debug)]
pub struct ResourceManager {
    root: String,
}

impl ResourceManager {
    /// Creates a resource manager rooted at the given directory, typically
    /// the working directory or a dedicated game directory.
    pub fn new(root: &str) -> (r: ResourceManager)
        ensures
            r.spec_root() == root@,
    {
        ResourceManager { root: root.to_owned() }
    }

    pub closed spec fn spec_root(&self) -> Seq<char> {
        self.root@
    }

    /// The root directory.
    pub fn root(&self) -> (r: &str)
        ensures
            r@ == self.spec_root(),
    {
        self.root.as_str()
    }

    /// Full file path of a resource.
    pub fn path(&self, namespace: &str, category: ResourceCategory, filename: &str) -> (r: String)
        ensures
            r@ == resource_path(self.spec_root(), namespace@, category, filename@),
    {
        let domain_dir = match category.domain() {
            ResourceDomain::Assets => "assets",
            ResourceDomain::Data => "data",
        };
        let p = join_path(self.root.clone(), domain_dir);
        let p = join_path(p, namespace);
        let p = join_path(p, category.relative_path());
        join_path(p, filename)
    }
}

} // verus!
