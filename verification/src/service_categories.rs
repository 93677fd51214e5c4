//! User-defined categories that organise system services.

use vstd::prelude::*;
use crate::strmap::{StrMap, map_of, distinct_keys, lemma_map_of_value, lemma_map_of_domain};
use crate::text::{owned, str_eq, chars_of, string_of, trim_end_matches, trim_end_matches_exec};

verus! {

/// A category of services.
#[derive(Debug)]
pub struct ServiceCategory {
    pub id: String,
    pub name: String,
    pub icon: String,
    pub color: String,
    pub services: Vec<String>,
    pub order: i32,
    pub is_default: bool,
    /// Used for filtering, like Docker profiles.
    pub is_active: bool,
}

/// What a category holds, as plain values.
pub struct CategoryView {
    pub id: Seq<char>,
    pub name: Seq<char>,
    pub icon: Seq<char>,
    pub color: Seq<char>,
    pub services: Seq<Seq<char>>,
    pub order: i32,
    pub is_default: bool,
    pub is_active: bool,
}

impl View for ServiceCategory {
    type V = CategoryView;

    open spec fn view(&self) -> CategoryView {
        CategoryView {
            id: self.id@,
            name: self.name@,
            icon: self.icon@,
            color: self.color@,
            services: self.services@.map_values(|s: String| s@),
            order: self.order,
            is_default: self.is_default,
            is_active: self.is_active,
        }
    }
}

/// How a tracked service is shown.
#[derive(Debug)]
pub struct TrackedService {
    pub category: String,
    pub display_name: String,
    pub metrics_enabled: bool,
    pub plugin: Option<String>,
}

/// What a tracked service holds, as plain values.
pub struct TrackedView {
    pub category: Seq<char>,
    pub display_name: Seq<char>,
    pub metrics_enabled: bool,
    pub plugin: Option<Seq<char>>,
}

impl View for TrackedService {
    type V = TrackedView;

    open spec fn view(&self) -> TrackedView {
        TrackedView {
            category: self.category@,
            display_name: self.display_name@,
            metrics_enabled: self.metrics_enabled,
            plugin: match self.plugin {
                Some(p) => Some(p@),
                None => None,
            },
        }
    }
}

/// The categories and the tracked services.
pub struct CategoryConfig {
    pub categories: Vec<ServiceCategory>,
    pub tracked_services: StrMap<TrackedService>,
}

/// Why a change to the categories was refused.
#[derive(Debug, Clone, PartialEq, Eq)]
pub enum CategoryError {
    /// A category with this id exists already.
    AlreadyExists(String),
    /// No category has this id.
    NotFound(String),
    /// Default categories cannot be deleted.
    CannotDeleteDefault,
}

/// A copy of a list of strings.
pub fn copy_strings(v: &Vec<String>) -> (r: Vec<String>)
    ensures
        r@ == v@,
{
    let mut out: Vec<String> = Vec::new();
    let mut i: usize = 0;
    while i < v.len()
        invariant
            i <= v.len(),
            out@ == v@.take(i as int),
        decreases v.len() - i,
    {
        out.push(v[i].clone());
        assert(v@.take(i + 1) == v@.take(i as int).push(v@[i as int]));
        i += 1;
    }
    assert(v@.take(v.len() as int) == v@);
    out
}

/// A list of strings built from literals.
pub fn strings(items: &[&str]) -> (r: Vec<String>)
    ensures
        r@.len() == items@.len(),
        forall|i: int| 0 <= i < items@.len() ==> (#[trigger] r@[i])@ == items@[i]@,
{
    let mut out: Vec<String> = Vec::new();
    let mut i: usize = 0;
    while i < items.len()
        invariant
            i <= items.len(),
            out@.len() == i,
            forall|j: int| 0 <= j < i ==> (#[trigger] out@[j])@ == items@[j]@,
        decreases items.len() - i,
    {
        out.push(owned(items[i]));
        i += 1;
    }
    out
}

impl ServiceCategory {
    /// A copy of the category.
    pub fn duplicate(&self) -> (r: ServiceCategory)
        ensures
            r@ == self@,
    {
        ServiceCategory {
            id: self.id.clone(),
            name: self.name.clone(),
            icon: self.icon.clone(),
            color: self.color.clone(),
            services: copy_strings(&self.services),
            order: self.order,
            is_default: self.is_default,
            is_active: self.is_active,
        }
    }

    /// Whether the category lists `service`.
    pub fn has_service(&self, service: &str) -> (r: bool)
        ensures
            r == self@.services.contains(service@),
    {
        let mut i: usize = 0;
        while i < self.services.len()
            invariant
                i <= self.services.len(),
                forall|j: int| 0 <= j < i ==> (#[trigger] self.services@[j])@ != service@,
            decreases self.services.len() - i,
        {
            if str_eq(self.services[i].as_str(), service) {
                assert(self@.services[i as int] == service@);
                return true;
            }
            i += 1;
        }
        assert forall|j: int| 0 <= j < self@.services.len() implies self@.services[j] != service@ by {
            assert(self@.services[j] == self.services@[j]@);
        }
        false
    }
}

impl TrackedService {
    /// A copy of the tracked service.
    pub fn duplicate(&self) -> (r: TrackedService)
        ensures
            r@ == self@,
    {
        TrackedService {
            category: self.category.clone(),
            display_name: self.display_name.clone(),
            metrics_enabled: self.metrics_enabled,
            plugin: match &self.plugin {
                Some(p) => Some(p.clone()),
                None => None,
            },
        }
    }
}

/// The views of a list of categories.
pub open spec fn cat_views(s: Seq<ServiceCategory>) -> Seq<CategoryView> {
    s.map_values(|c: ServiceCategory| c@)
}

/// The views of the tracked services.
pub open spec fn tracked_views(m: Map<Seq<char>, TrackedService>) -> Map<Seq<char>, TrackedView> {
    m.map_values(|t: TrackedService| t@)
}

/// Some category has the id `id`.
pub open spec fn has_category(cats: Seq<CategoryView>, id: Seq<char>) -> bool {
    exists|k: int| 0 <= k < cats.len() && (#[trigger] cats[k]).id == id
}

/// `k` is the first index of a category with the id `id`.
pub open spec fn is_first_category(cats: Seq<CategoryView>, id: Seq<char>, k: int) -> bool {
    &&& 0 <= k < cats.len()
    &&& cats[k].id == id
    &&& forall|j: int| 0 <= j < k ==> (#[trigger] cats[j]).id != id
}

/// At most one index is the first with a given id.
pub proof fn lemma_first_category_unique(cats: Seq<CategoryView>, id: Seq<char>, k1: int, k2: int)
    requires
        is_first_category(cats, id, k1),
        is_first_category(cats, id, k2),
    ensures
        k1 == k2,
{
    if k1 < k2 {
        assert(cats[k1].id == id);
    } else if k2 < k1 {
        assert(cats[k2].id == id);
    }
}

/// `cats` sorted by `order`, equal orders keeping their relative position:
/// each category goes after all earlier ones whose order is not greater.
pub open spec fn sort_by_order(cats: Seq<CategoryView>) -> Seq<CategoryView>
    decreases cats.len(),
{
    if cats.len() == 0 {
        cats
    } else {
        insert_by_order(sort_by_order(cats.drop_last()), cats.last())
    }
}

/// The first index of `s` whose order is greater than `o` (or `s.len()`).
pub open spec fn first_greater(s: Seq<CategoryView>, o: i32, i: int) -> int
    decreases s.len() - i,
{
    if 0 <= i < s.len() && s[i].order <= o {
        first_greater(s, o, i + 1)
    } else {
        i
    }
}

/// `c` inserted into `s` before the first category with a greater order.
pub open spec fn insert_by_order(s: Seq<CategoryView>, c: CategoryView) -> Seq<CategoryView> {
    s.insert(first_greater(s, c.order, 0), c)
}

/// The orders never decrease along `s`.
pub open spec fn sorted_by_order(s: Seq<CategoryView>) -> bool {
    forall|i: int, j: int| 0 <= i <= j < s.len() ==> (#[trigger] s[i]).order <= (#[trigger] s[j]).order
}

pub proof fn lemma_first_greater(s: Seq<CategoryView>, o: i32, i: int)
    requires
        0 <= i <= s.len(),
    ensures
        i <= first_greater(s, o, i) <= s.len(),
        forall|k: int| i <= k < first_greater(s, o, i) ==> (#[trigger] s[k]).order <= o,
        first_greater(s, o, i) < s.len() ==> s[first_greater(s, o, i)].order > o,
    decreases s.len() - i,
{
    if i < s.len() && s[i].order <= o {
        lemma_first_greater(s, o, i + 1);
    }
}

/// `m` with every tracked service of category `id` moved to "Uncategorized".
pub open spec fn uncategorize(m: Map<Seq<char>, TrackedView>, id: Seq<char>) -> Map<
    Seq<char>,
    TrackedView,
> {
    m.map_values(
        |t: TrackedView|
            if t.category == id {
                TrackedView { category: "Uncategorized"@, ..t }
            } else {
                t
            },
    )
}

/// The category of a service: its tracked category, else the id of the first
/// category that lists it, else "Uncategorized".
pub open spec fn service_category(
    cats: Seq<CategoryView>,
    watched: Map<Seq<char>, TrackedView>,
    service: Seq<char>,
) -> Seq<char> {
    if watched.contains_key(service) {
        watched[service].category
    } else if first_listing(cats, service, 0) < cats.len() {
        cats[first_listing(cats, service, 0)].id
    } else {
        "Uncategorized"@
    }
}

/// The first index at or after `i` of a category that lists `service` (or `cats.len()`).
pub open spec fn first_listing(cats: Seq<CategoryView>, service: Seq<char>, i: int) -> int
    decreases cats.len() - i,
{
    if 0 <= i < cats.len() && !cats[i].services.contains(service) {
        first_listing(cats, service, i + 1)
    } else {
        i
    }
}

/// Applies a new order: the category first named at position `i` of `ids`
/// (by its first match) gets the order `i`; later positions win.
pub open spec fn reorder(cats: Seq<CategoryView>, ids: Seq<Seq<char>>) -> Seq<CategoryView>
    decreases ids.len(),
{
    if ids.len() == 0 {
        cats
    } else {
        let before = reorder(cats, ids.drop_last());
        let i = ids.len() - 1;
        if has_category(before, ids.last()) {
            let k = choose|k: int| #[trigger] is_first_category(before, ids.last(), k);
            before.update(k, CategoryView { order: i as i32, ..before[k] })
        } else {
            before
        }
    }
}

/// Categories and tracked services, held in memory; the caller stores them.
pub struct CategoryManager {
    config: CategoryConfig,
}

impl CategoryManager {
    /// The categories, in their stored order.
    pub closed spec fn categories_view(&self) -> Seq<CategoryView> {
        cat_views(self.config.categories@)
    }

    /// The tracked services, by service name.
    pub closed spec fn tracked_view(&self) -> Map<Seq<char>, TrackedView> {
        tracked_views(self.config.tracked_services.map())
    }

    /// The tracked services are well formed.
    pub closed spec fn wf(&self) -> bool {
        self.config.tracked_services.wf()
    }

    /// A manager holding `config`, as read from the category file.
    pub fn from_config(config: CategoryConfig) -> (r: CategoryManager)
        requires
            config.tracked_services.wf(),
        ensures
            r.wf(),
            r.categories_view() == cat_views(config.categories@),
            r.tracked_view() == tracked_views(config.tracked_services.map()),
    {
        CategoryManager { config }
    }

    /// The configuration, for storing.
    pub fn config(&self) -> (r: &CategoryConfig)
        ensures
            cat_views(r.categories@) == self.categories_view(),
            tracked_views(r.tracked_services.map()) == self.tracked_view(),
            self.wf() ==> r.tracked_services.wf(),
    {
        &self.config
    }

    /// The categories that come with the tool.
    pub fn default_config() -> (r: CategoryConfig)
        ensures
            r.tracked_services.wf(),
            r.tracked_services.map() == Map::<Seq<char>, TrackedService>::empty(),
            cat_views(r.categories@).len() == 7,
            forall|i: int|
                0 <= i < 7 ==> (#[trigger] cat_views(r.categories@)[i]).order == i + 1
                    && cat_views(r.categories@)[i].is_default && cat_views(r.categories@)[i].is_active,
            cat_views(r.categories@)[0].id == "system"@,
            cat_views(r.categories@)[1].id == "networking"@,
            cat_views(r.categories@)[2].id == "file-sharing"@,
            cat_views(r.categories@)[3].id == "node-services"@,
            cat_views(r.categories@)[4].id == "web-services"@,
            cat_views(r.categories@)[5].id == "databases"@,
            cat_views(r.categories@)[6].id == "game-servers"@,
            cat_views(r.categories@)[0].services == seq![
                "systemd-journald.service"@,
                "systemd-logind.service"@,
                "systemd-udevd.service"@,
                "dbus.service"@,
            ],
            cat_views(r.categories@)[1].services == seq![
                "networking.service"@,
                "NetworkManager.service"@,
                "systemd-networkd.service"@,
                "systemd-resolved.service"@,
            ],
            cat_views(r.categories@)[2].services == seq![
                "smbd.service"@,
                "nmbd.service"@,
                "nfs-server.service"@,
                "rpcbind.service"@,
            ],
            cat_views(r.categories@)[3].services == seq![
                "kaspa-mainnet.service"@,
                "kaspa-resolver.service"@,
                "kaspa-testnet.service"@,
            ],
            cat_views(r.categories@)[4].services == seq![
                "nginx.service"@,
                "apache2.service"@,
                "caddy.service"@,
            ],
            cat_views(r.categories@)[5].services == seq![
                "postgresql.service"@,
                "mysql.service"@,
                "mariadb.service"@,
                "mongodb.service"@,
                "redis.service"@,
            ],
            cat_views(r.categories@)[6].services == seq![
                "minecraft.service"@,
                "valheim.service"@,
                "terraria.service"@,
            ],
    {
        let mut categories: Vec<ServiceCategory> = Vec::new();
        categories.push(
            Self::default_category(
                "system",
                "System",
                "⚙️",
                "#64748b",
                strings(
                    &[
                        "systemd-journald.service",
                        "systemd-logind.service",
                        "systemd-udevd.service",
                        "dbus.service",
                    ],
                ),
                1,
            ),
        );
        categories.push(
            Self::default_category(
                "networking",
                "Networking",
                "🌐",
                "#3b82f6",
                strings(
                    &[
                        "networking.service",
                        "NetworkManager.service",
                        "systemd-networkd.service",
                        "systemd-resolved.service",
                    ],
                ),
                2,
            ),
        );
        categories.push(
            Self::default_category(
                "file-sharing",
                "File Sharing",
                "📁",
                "#f59e0b",
                strings(
                    &["smbd.service", "nmbd.service", "nfs-server.service", "rpcbind.service"],
                ),
                3,
            ),
        );
        categories.push(
            Self::default_category(
                "node-services",
                "Node Services",
                "🔗",
                "#6366f1",
                strings(
                    &["kaspa-mainnet.service", "kaspa-resolver.service", "kaspa-testnet.service"],
                ),
                4,
            ),
        );
        categories.push(
            Self::default_category(
                "web-services",
                "Web Services",
                "🌍",
                "#10b981",
                strings(&["nginx.service", "apache2.service", "caddy.service"]),
                5,
            ),
        );
        categories.push(
            Self::default_category(
                "databases",
                "Databases",
                "💾",
                "#ec4899",
                strings(
                    &[
                        "postgresql.service",
                        "mysql.service",
                        "mariadb.service",
                        "mongodb.service",
                        "redis.service",
                    ],
                ),
                6,
            ),
        );
        categories.push(
            Self::default_category(
                "game-servers",
                "Game Servers",
                "🎮",
                "#8b5cf6",
                strings(&["minecraft.service", "valheim.service", "terraria.service"]),
                7,
            ),
        );
        let r = CategoryConfig { categories, tracked_services: StrMap::new() };
        proof {
            assert forall|i: int| 0 <= i < 7 implies (#[trigger] cat_views(r.categories@)[i]).order
                == i + 1 && cat_views(r.categories@)[i].is_default && cat_views(
                r.categories@,
            )[i].is_active by {
                assert(cat_views(r.categories@)[i] == r.categories@[i]@);
            }
            assert(cat_views(r.categories@)[0].services =~= seq![
                "systemd-journald.service"@,
                "systemd-logind.service"@,
                "systemd-udevd.service"@,
                "dbus.service"@,
            ]);
            assert(cat_views(r.categories@)[1].services =~= seq![
                "networking.service"@,
                "NetworkManager.service"@,
                "systemd-networkd.service"@,
                "systemd-resolved.service"@,
            ]);
            assert(cat_views(r.categories@)[2].services =~= seq![
                "smbd.service"@,
                "nmbd.service"@,
                "nfs-server.service"@,
                "rpcbind.service"@,
            ]);
            assert(cat_views(r.categories@)[3].services =~= seq![
                "kaspa-mainnet.service"@,
                "kaspa-resolver.service"@,
                "kaspa-testnet.service"@,
            ]);
            assert(cat_views(r.categories@)[4].services =~= seq![
                "nginx.service"@,
                "apache2.service"@,
                "caddy.service"@,
            ]);
            assert(cat_views(r.categories@)[5].services =~= seq![
                "postgresql.service"@,
                "mysql.service"@,
                "mariadb.service"@,
                "mongodb.service"@,
                "redis.service"@,
            ]);
            assert(cat_views(r.categories@)[6].services =~= seq![
                "minecraft.service"@,
                "valheim.service"@,
                "terraria.service"@,
            ]);
        }
        r
    }

    /// A default category: listed as default and active.
    fn default_category(
        id: &str,
        name: &str,
        icon: &str,
        color: &str,
        services: Vec<String>,
        order: i32,
    ) -> (r: ServiceCategory)
        ensures
            r@ == (CategoryView {
                id: id@,
                name: name@,
                icon: icon@,
                color: color@,
                services: services@.map_values(|s: String| s@),
                order,
                is_default: true,
                is_active: true,
            }),
    {
        ServiceCategory {
            id: owned(id),
            name: owned(name),
            icon: owned(icon),
            color: owned(color),
            services,
            order,
            is_default: true,
            is_active: true,
        }
    }

    /// The index of the first category with the id `id`.
    fn position(&self, id: &str) -> (r: Option<usize>)
        ensures
            r matches Some(k) ==> is_first_category(self.categories_view(), id@, k as int),
            r is None ==> !has_category(self.categories_view(), id@),
    {
        let mut i: usize = 0;
        while i < self.config.categories.len()
            invariant
                i <= self.config.categories.len(),
                forall|j: int| 0 <= j < i ==> (#[trigger] self.categories_view()[j]).id != id@,
            decreases self.config.categories.len() - i,
        {
            if str_eq(self.config.categories[i].id.as_str(), id) {
                return Some(i);
            }
            i += 1;
        }
        None
    }

    /// All categories, sorted by their order; equal orders keep their stored order.
    pub fn get_categories(&self) -> (r: Vec<ServiceCategory>)
        ensures
            cat_views(r@) == sort_by_order(self.categories_view()),
    {
        let mut out: Vec<ServiceCategory> = Vec::new();
        let mut i: usize = 0;
        let ghost cats = self.categories_view();
        while i < self.config.categories.len()
            invariant
                cats == self.categories_view(),
                i <= cats.len(),
                cat_views(out@) == sort_by_order(cats.take(i as int)),
            decreases cats.len() - i,
        {
            let c = self.config.categories[i].duplicate();
            let o = c.order;
            let mut k: usize = 0;
            while k < out.len() && out[k].order <= o
                invariant
                    k <= out.len(),
                    first_greater(cat_views(out@), o, 0) == first_greater(
                        cat_views(out@),
                        o,
                        k as int,
                    ),
                decreases out.len() - k,
            {
                k += 1;
            }
            proof {
                lemma_first_greater(cat_views(out@), o, k as int);
                assert(cats.take(i + 1).drop_last() == cats.take(i as int));
                assert(cats.take(i + 1).last() == c@);
            }
            let ghost before = out@;
            out.insert(k, c);
            proof {
                assert(cat_views(out@) =~= cat_views(before).insert(k as int, cats[i as int]));
            }
            i += 1;
        }
        proof {
            assert(cats.take(cats.len() as int) == cats);
        }
        out
    }

    /// The first category with the id `id`.
    pub fn get_category(&self, id: &str) -> (r: Option<ServiceCategory>)
        ensures
            r matches Some(c) ==> exists|k: int|
                is_first_category(self.categories_view(), id@, k) && c@
                    == self.categories_view()[k],
            r is None <==> !has_category(self.categories_view(), id@),
    {
        match self.position(id) {
            Some(k) => Some(self.config.categories[k].duplicate()),
            None => None,
        }
    }

    /// Adds a category, unless one with the same id exists.
    pub fn add_category(&mut self, category: ServiceCategory) -> (r: Result<(), CategoryError>)
        requires
            old(self).wf(),
        ensures
            final(self).wf(),
            r is Ok <==> !has_category(old(self).categories_view(), category.id@),
            r is Ok ==> final(self).categories_view() == old(self).categories_view().push(
                category@,
            ),
            r matches Err(CategoryError::AlreadyExists(id)) ==> id@ == category.id@,
            r is Err ==> (r matches Err(CategoryError::AlreadyExists(_))),
            r is Err ==> final(self).categories_view() == old(self).categories_view(),
            final(self).tracked_view() == old(self).tracked_view(),
    {
        match self.position(category.id.as_str()) {
            Some(_) => Err(CategoryError::AlreadyExists(category.id)),
            None => {
                let ghost before = self.config.categories@;
                let ghost cv = category@;
                self.config.categories.push(category);
                proof {
                    assert(cat_views(self.config.categories@) =~= cat_views(before).push(cv));
                }
                Ok(())
            },
        }
    }

    /// Replaces the first category with the id `id`.
    pub fn update_category(&mut self, id: &str, updated: ServiceCategory) -> (r: Result<
        (),
        CategoryError,
    >)
        requires
            old(self).wf(),
        ensures
            final(self).wf(),
            r is Ok <==> has_category(old(self).categories_view(), id@),
            r is Ok ==> exists|k: int|
                is_first_category(old(self).categories_view(), id@, k) && final(self).categories_view() == #[trigger] old(self).categories_view().update(k, updated@),
            r matches Err(CategoryError::NotFound(n)) ==> n@ == id@,
            r is Err ==> (r matches Err(CategoryError::NotFound(_))),
            r is Err ==> final(self).categories_view() == old(self).categories_view(),
            final(self).tracked_view() == old(self).tracked_view(),
    {
        match self.position(id) {
            Some(k) => {
                let ghost before = self.config.categories@;
                let ghost uv = updated@;
                self.config.categories.set(k, updated);
                proof {
                    assert(cat_views(self.config.categories@) =~= cat_views(before).update(
                        k as int,
                        uv,
                    ));
                }
                Ok(())
            },
            None => Err(CategoryError::NotFound(owned(id))),
        }
    }

    /// Deletes every category with the id `id`, unless the first one is a
    /// default category, and moves its tracked services to "Uncategorized".
    pub fn delete_category(&mut self, id: &str) -> (r: Result<(), CategoryError>)
        requires
            old(self).wf(),
        ensures
            final(self).wf(),
            r matches Err(CategoryError::NotFound(n)) ==> n@ == id@ && !has_category(
                old(self).categories_view(),
                id@,
            ),
            r == Err::<(), CategoryError>(CategoryError::CannotDeleteDefault) ==> exists|k: int|
                is_first_category(old(self).categories_view(), id@, k) && (#[trigger] old(self).categories_view()[k]).is_default,
            r is Ok ==> exists|k: int|
                is_first_category(old(self).categories_view(), id@, k) && !(#[trigger] old(self).categories_view()[k]).is_default,
            (exists|k: int|
                is_first_category(old(self).categories_view(), id@, k) && !(#[trigger] old(self).categories_view()[k]).is_default)
                ==> r is Ok,
            (exists|k: int|
                is_first_category(old(self).categories_view(), id@, k) && (#[trigger] old(self).categories_view()[k]).is_default)
                ==> r == Err::<(), CategoryError>(CategoryError::CannotDeleteDefault),
            !has_category(old(self).categories_view(), id@) ==> (r matches Err(
                CategoryError::NotFound(_),
            )),
            r is Ok ==> final(self).categories_view() == old(self).categories_view().filter(
                |c: CategoryView| c.id != id@,
            ),
            r is Ok ==> final(self).tracked_view() == uncategorize(old(self).tracked_view(), id@),
            r is Err ==> final(self).categories_view() == old(self).categories_view()
                && final(self).tracked_view() == old(self).tracked_view(),
    {
        let k = match self.position(id) {
            Some(k) => k,
            None => return Err(CategoryError::NotFound(owned(id))),
        };
        proof {
            assert forall|k2: int| is_first_category(self.categories_view(), id@, k2) implies k2
                == k as int by {
                lemma_first_category_unique(self.categories_view(), id@, k as int, k2);
            }
        }
        if self.config.categories[k].is_default {
            return Err(CategoryError::CannotDeleteDefault);
        }
        let ghost before = self.categories_view();
        let mut kept: Vec<ServiceCategory> = Vec::new();
        let mut i: usize = 0;
        while i < self.config.categories.len()
            invariant
                before == self.categories_view(),
                i <= before.len(),
                cat_views(kept@) == before.take(i as int).filter(|c: CategoryView| c.id != id@),
            decreases before.len() - i,
        {
            let ghost pre = before.take(i as int);
            let ghost post = before.take(i + 1);
            proof {
                reveal(Seq::filter);
                assert(post.drop_last() == pre);
                assert(post.last() == before[i as int]);
            }
            if !str_eq(self.config.categories[i].id.as_str(), id) {
                let ghost kb = kept@;
                kept.push(self.config.categories[i].duplicate());
                proof {
                    assert(cat_views(kept@) =~= cat_views(kb).push(before[i as int]));
                }
            }
            i += 1;
        }
        proof {
            assert(before.take(before.len() as int) == before);
        }
        self.config.categories = kept;
        self.uncategorize_tracked(id);
        Ok(())
    }

    /// Moves every tracked service of category `id` to "Uncategorized".
    fn uncategorize_tracked(&mut self, id: &str)
        requires
            old(self).wf(),
        ensures
            final(self).wf(),
            final(self).tracked_view() == uncategorize(old(self).tracked_view(), id@),
            final(self).categories_view() == old(self).categories_view(),
    {
        let ghost old_entries = self.config.tracked_services.entries_spec();
        let ghost old_map = self.config.tracked_services.map();
        proof {
            self.config.tracked_services.lemma_map_is_entries();
        }
        let n = self.config.tracked_services.len();
        let mut i: usize = 0;
        while i < n
            invariant
                self.config.tracked_services.wf(),
                self.config.categories@ == old(self).config.categories@,
                n == old_entries.len(),
                i <= n,
                self.config.tracked_services.entries_spec().len() == n,
                old_map == map_of(old_entries),
                distinct_keys(old_entries),
                forall|j: int|
                    0 <= j < n ==> (#[trigger] self.config.tracked_services.entries_spec()[j]).0
                        == old_entries[j].0,
                forall|j: int|
                    0 <= j < i ==> (#[trigger] self.config.tracked_services.entries_spec()[j]).1@
                        == (if old_entries[j].1@.category == id@ {
                        TrackedView { category: "Uncategorized"@, ..old_entries[j].1@ }
                    } else {
                        old_entries[j].1@
                    }),
                forall|j: int|
                    i <= j < n ==> (#[trigger] self.config.tracked_services.entries_spec()[j]).1
                        == old_entries[j].1,
            decreases n - i,
        {
            let (_, t) = self.config.tracked_services.entry(i);
            if str_eq(t.category.as_str(), id) {
                let changed = TrackedService {
                    category: owned("Uncategorized"),
                    display_name: t.display_name.clone(),
                    metrics_enabled: t.metrics_enabled,
                    plugin: match &t.plugin {
                        Some(p) => Some(p.clone()),
                        None => None,
                    },
                };
                self.config.tracked_services.set_value_at(i, changed);
            }
            i += 1;
        }
        proof {
            let e = self.config.tracked_services.entries_spec();
            let new_map = self.config.tracked_services.map();
            self.config.tracked_services.lemma_map_is_entries();
            assert(new_map == map_of(e));
            assert(distinct_keys(e));
            assert forall|key: Seq<char>| #[trigger]
                tracked_views(new_map).contains_key(key) == uncategorize(
                    tracked_views(old_map),
                    id@,
                ).contains_key(key) by {
                lemma_map_of_domain(e, key);
                lemma_map_of_domain(old_entries, key);
                if exists|j: int| 0 <= j < e.len() && (#[trigger] e[j]).0@ == key {
                    let j = choose|j: int| 0 <= j < e.len() && (#[trigger] e[j]).0@ == key;
                    assert(old_entries[j].0@ == key);
                }
                if exists|j: int| 0 <= j < old_entries.len() && (#[trigger] old_entries[j]).0@ == key {
                    let j = choose|j: int|
                        0 <= j < old_entries.len() && (#[trigger] old_entries[j]).0@ == key;
                    assert(e[j].0@ == key);
                }
            }
            assert forall|key: Seq<char>| #[trigger]
                tracked_views(new_map).contains_key(key) implies tracked_views(new_map)[key]
                == uncategorize(tracked_views(old_map), id@)[key] by {
                lemma_map_of_domain(e, key);
                let j = choose|j: int| 0 <= j < e.len() && (#[trigger] e[j]).0@ == key;
                lemma_map_of_value(e, j);
                assert(old_entries[j].0@ == key);
                lemma_map_of_value(old_entries, j);
            }
            assert(tracked_views(new_map) =~= uncategorize(tracked_views(old_map), id@));
        }
    }

    /// Lists a service in the first category with the id `category_id` and
    /// tracks it under that category.
    pub fn add_service_to_category(&mut self, category_id: &str, service_name: String) -> (r:
        Result<(), CategoryError>)
        requires
            old(self).wf(),
        ensures
            final(self).wf(),
            r is Ok <==> has_category(old(self).categories_view(), category_id@),
            r matches Err(CategoryError::NotFound(n)) ==> n@ == category_id@,
            r is Err ==> (r matches Err(CategoryError::NotFound(_))),
            r is Err ==> final(self).categories_view() == old(self).categories_view()
                && final(self).tracked_view() == old(self).tracked_view(),
            r is Ok ==> exists|k: int|
                is_first_category(old(self).categories_view(), category_id@, k) && final(self).categories_view() == #[trigger] old(self).categories_view().update(
                    k,
                    with_service(old(self).categories_view()[k], service_name@),
                ),
            r is Ok ==> final(self).tracked_view() == old(self).tracked_view().insert(
                service_name@,
                if old(self).tracked_view().contains_key(service_name@) {
                    TrackedView {
                        category: category_id@,
                        ..old(self).tracked_view()[service_name@]
                    }
                } else {
                    TrackedView {
                        category: category_id@,
                        display_name: trim_end_matches(service_name@, ".service"@),
                        metrics_enabled: true,
                        plugin: None,
                    }
                },
            ),
    {
        let k = match self.position(category_id) {
            Some(k) => k,
            None => return Err(CategoryError::NotFound(owned(category_id))),
        };
        let ghost before = self.config.categories@;
        if !self.config.categories[k].has_service(service_name.as_str()) {
            let mut c = self.config.categories[k].duplicate();
            let ghost cv = c@;
            c.services.push(service_name.clone());
            proof {
                assert(c@.services =~= cv.services.push(service_name@));
            }
            self.config.categories.set(k, c);
        } else {
            proof {
                assert(with_service(cat_views(before)[k as int], service_name@)
                    == cat_views(before)[k as int]);
            }
        }
        proof {
            assert(cat_views(self.config.categories@) =~= cat_views(before).update(
                k as int,
                with_service(cat_views(before)[k as int], service_name@),
            ));
        }
        let ghost tv = self.tracked_view();
        let new_t = match self.config.tracked_services.get(service_name.as_str()) {
            Some(t) => TrackedService {
                category: owned(category_id),
                display_name: t.display_name.clone(),
                metrics_enabled: t.metrics_enabled,
                plugin: match &t.plugin {
                    Some(p) => Some(p.clone()),
                    None => None,
                },
            },
            None => {
                let chars = chars_of(service_name.as_str());
                let suffix = chars_of(".service");
                let display = trim_end_matches_exec(&chars, &suffix);
                TrackedService {
                    category: owned(category_id),
                    display_name: string_of(&display),
                    metrics_enabled: true,
                    plugin: None,
                }
            },
        };
        let ghost nv = new_t@;
        self.config.tracked_services.insert(service_name, new_t);
        proof {
            assert(tracked_views(self.config.tracked_services.map()) =~= tv.insert(
                service_name@,
                nv,
            ));
        }
        Ok(())
    }

    /// Removes a service from the first category with the id `category_id`.
    pub fn remove_service_from_category(&mut self, category_id: &str, service_name: &str) -> (r:
        Result<(), CategoryError>)
        requires
            old(self).wf(),
        ensures
            final(self).wf(),
            r is Ok <==> has_category(old(self).categories_view(), category_id@),
            r matches Err(CategoryError::NotFound(n)) ==> n@ == category_id@,
            r is Err ==> (r matches Err(CategoryError::NotFound(_))),
            r is Err ==> final(self).categories_view() == old(self).categories_view(),
            r is Ok ==> exists|k: int|
                is_first_category(old(self).categories_view(), category_id@, k) && final(self).categories_view() == #[trigger] old(self).categories_view().update(
                    k,
                    without_service(old(self).categories_view()[k], service_name@),
                ),
            final(self).tracked_view() == old(self).tracked_view(),
    {
        let k = match self.position(category_id) {
            Some(k) => k,
            None => return Err(CategoryError::NotFound(owned(category_id))),
        };
        let ghost before = self.config.categories@;
        let c = self.config.categories[k].duplicate();
        let c2 = Self::drop_service(c, service_name);
        let ghost cv = c2@;
        self.config.categories.set(k, c2);
        proof {
            assert(cat_views(self.config.categories@) =~= cat_views(before).update(k as int, cv));
        }
        Ok(())
    }

    /// The category without `service` in its list.
    fn drop_service(c: ServiceCategory, service: &str) -> (r: ServiceCategory)
        ensures
            r@ == without_service(c@, service@),
    {
        let ghost cv = c@;
        let ServiceCategory { id, name, icon, color, services, order, is_default, is_active } = c;
        let ghost sv = services@;
        let mut kept: Vec<String> = Vec::new();
        let mut i: usize = 0;
        while i < services.len()
            invariant
                sv == services@,
                i <= sv.len(),
                cv.services == sv.map_values(|s: String| s@),
                kept@.map_values(|s: String| s@) == cv.services.take(i as int).filter(
                    |s: Seq<char>| s != service@,
                ),
            decreases sv.len() - i,
        {
            proof {
                reveal(Seq::filter);
                assert(cv.services.take(i + 1).drop_last() == cv.services.take(i as int));
                assert(cv.services.take(i + 1).last() == services@[i as int]@);
            }
            if !str_eq(services[i].as_str(), service) {
                let ghost kb = kept@;
                kept.push(services[i].clone());
                proof {
                    assert(kept@.map_values(|s: String| s@) =~= kb.map_values(|s: String| s@).push(
                        services@[i as int]@,
                    ));
                }
            }
            i += 1;
        }
        proof {
            assert(cv.services.take(sv.len() as int) == cv.services);
        }
        ServiceCategory { id, name, icon, color, services: kept, order, is_default, is_active }
    }

    /// The category of a service: its tracked category, else the first
    /// category that lists it, else "Uncategorized".
    pub fn get_service_category(&self, service_name: &str) -> (r: String)
        requires
            self.wf(),
        ensures
            r@ == service_category(self.categories_view(), self.tracked_view(), service_name@),
    {
        if let Some(t) = self.config.tracked_services.get(service_name) {
            return t.category.clone();
        }
        let mut i: usize = 0;
        while i < self.config.categories.len()
            invariant
                i <= self.config.categories.len(),
                !self.tracked_view().contains_key(service_name@),
                first_listing(self.categories_view(), service_name@, 0) == first_listing(
                    self.categories_view(),
                    service_name@,
                    i as int,
                ),
            decreases self.config.categories.len() - i,
        {
            proof {
                assert(self.categories_view()[i as int] == self.config.categories@[i as int]@);
            }
            if self.config.categories[i].has_service(service_name) {
                return self.config.categories[i].id.clone();
            }
            i += 1;
        }
        owned("Uncategorized")
    }

    /// The tracked services.
    pub fn get_tracked_services(&self) -> (r: &StrMap<TrackedService>)
        ensures
            tracked_views(r.map()) == self.tracked_view(),
            self.wf() ==> r.wf(),
    {
        &self.config.tracked_services
    }

    /// Adds or replaces a tracked service.
    pub fn update_tracked_service(&mut self, name: String, settings: TrackedService)
        requires
            old(self).wf(),
        ensures
            final(self).wf(),
            final(self).tracked_view() == old(self).tracked_view().insert(name@, settings@),
            final(self).categories_view() == old(self).categories_view(),
    {
        let ghost tv = self.tracked_view();
        let ghost k = name@;
        let ghost v = settings@;
        self.config.tracked_services.insert(name, settings);
        proof {
            assert(self.tracked_view() =~= tv.insert(k, v));
        }
    }

    /// Stops tracking a service and removes it from every category.
    pub fn remove_tracked_service(&mut self, name: &str)
        requires
            old(self).wf(),
        ensures
            final(self).wf(),
            final(self).tracked_view() == old(self).tracked_view().remove(name@),
            final(self).categories_view().len() == old(self).categories_view().len(),
            forall|k: int|
                0 <= k < old(self).categories_view().len() ==> #[trigger] final(self).categories_view()[k] == without_service(old(self).categories_view()[k], name@),
    {
        let ghost tv = self.tracked_view();
        self.config.tracked_services.remove(name);
        proof {
            assert(self.tracked_view() =~= tv.remove(name@));
        }
        let ghost before = self.categories_view();
        let n = self.config.categories.len();
        let mut out: Vec<ServiceCategory> = Vec::new();
        let mut i: usize = 0;
        while i < n
            invariant
                n == before.len(),
                before == self.categories_view(),
                i <= n,
                out@.len() == i,
                forall|k: int|
                    0 <= k < i ==> #[trigger] cat_views(out@)[k] == without_service(
                        before[k],
                        name@,
                    ),
            decreases n - i,
        {
            let c = self.config.categories[i].duplicate();
            let d = Self::drop_service(c, name);
            let ghost ob = out@;
            let ghost dv = d@;
            out.push(d);
            proof {
                assert(before[i as int] == self.config.categories@[i as int]@);
                assert forall|k: int| 0 <= k < i + 1 implies #[trigger] cat_views(out@)[k]
                    == without_service(before[k], name@) by {
                    if k < i {
                        assert(out@[k] == ob[k]);
                        assert(cat_views(ob)[k] == ob[k]@);
                    }
                }
            }
            i += 1;
        }
        self.config.categories = out;
    }

    /// Whether a service is tracked or listed in some category.
    pub fn is_tracked(&self, service_name: &str) -> (r: bool)
        requires
            self.wf(),
        ensures
            r == (self.tracked_view().contains_key(service_name@) || exists|k: int|
                0 <= k < self.categories_view().len() && (
                #[trigger] self.categories_view()[k]).services.contains(service_name@)),
    {
        if self.config.tracked_services.contains_key(service_name) {
            return true;
        }
        let mut i: usize = 0;
        while i < self.config.categories.len()
            invariant
                i <= self.config.categories.len(),
                forall|j: int|
                    0 <= j < i ==> !(#[trigger] self.categories_view()[j]).services.contains(
                        service_name@,
                    ),
            decreases self.config.categories.len() - i,
        {
            proof {
                assert(self.categories_view()[i as int] == self.config.categories@[i as int]@);
            }
            if self.config.categories[i].has_service(service_name) {
                return true;
            }
            i += 1;
        }
        false
    }

    /// Gives the category first matching `category_ids[i]` the order `i`.
    pub fn reorder_categories(&mut self, category_ids: Vec<String>)
        requires
            old(self).wf(),
        ensures
            final(self).wf(),
            final(self).categories_view() == reorder(
                old(self).categories_view(),
                category_ids@.map_values(|s: String| s@),
            ),
            final(self).tracked_view() == old(self).tracked_view(),
    {
        let ghost ids = category_ids@.map_values(|s: String| s@);
        let ghost start = self.categories_view();
        let mut i: usize = 0;
        while i < category_ids.len()
            invariant
                self.wf(),
                ids == category_ids@.map_values(|s: String| s@),
                i <= category_ids.len(),
                self.categories_view() == reorder(start, ids.take(i as int)),
                self.tracked_view() == old(self).tracked_view(),
            decreases category_ids.len() - i,
        {
            proof {
                assert(ids.take(i + 1).drop_last() == ids.take(i as int));
                assert(ids.take(i + 1).last() == category_ids@[i as int]@);
            }
            match self.position(category_ids[i].as_str()) {
                Some(k) => {
                    let ghost before = self.config.categories@;
                    let mut c = self.config.categories[k].duplicate();
                    let o = #[verifier::truncate] (i as i32);
                    c.order = o;
                    let ghost cv = c@;
                    self.config.categories.set(k, c);
                    proof {
                        let bv = cat_views(before);
                        let kk = choose|kk: int| #[trigger] is_first_category(bv, ids.take(i + 1).last(), kk);
                        assert(kk == k as int) by {
                            if kk < k {
                            } else if kk > k {
                            }
                        }
                        assert(cat_views(self.config.categories@) =~= bv.update(k as int, cv));
                    }
                },
                None => {},
            }
            i += 1;
        }
        proof {
            assert(ids.take(category_ids.len() as int) == ids);
        }
    }
}

/// The category with `service` appended to its list, unless it is listed already.
pub open spec fn with_service(c: CategoryView, service: Seq<char>) -> CategoryView {
    if c.services.contains(service) {
        c
    } else {
        CategoryView { services: c.services.push(service), ..c }
    }
}

/// The category without `service` in its list.
pub open spec fn without_service(c: CategoryView, service: Seq<char>) -> CategoryView {
    CategoryView { services: c.services.filter(|s: Seq<char>| s != service), ..c }
}


/// Listing the categories sorts them by their order and loses or adds
/// none.
pub proof fn law_categories_listed_in_order(cats: Seq<CategoryView>)
    ensures
        sorted_by_order(sort_by_order(cats)),
        sort_by_order(cats).to_multiset() == cats.to_multiset(),
    decreases cats.len(),
{
    if cats.len() > 0 {
        let d = cats.drop_last();
        let c = cats.last();
        law_categories_listed_in_order(d);
        let s = sort_by_order(d);
        let k = first_greater(s, c.order, 0);
        lemma_first_greater(s, c.order, 0);
        let r = s.insert(k, c);
        assert(r == sort_by_order(cats));
        assert forall|i: int, j: int| 0 <= i <= j < r.len() implies (#[trigger] r[i]).order <= (#[trigger] r[j]).order by {
            if i < k {
                assert(r[i] == s[i]);
            } else if i > k {
                assert(r[i] == s[i - 1]);
            }
            if j < k {
                assert(r[j] == s[j]);
            } else if j > k {
                assert(r[j] == s[j - 1]);
            }
            if i < k && j > k {
                assert(s[i].order <= s[j - 1].order);
            }
        }
        vstd::seq_lib::to_multiset_insert(s, k, c);
        vstd::seq_lib::to_multiset_build(d, c);
        assert(d.push(c) == cats);
    }
}
} // verus!
