//! Owners, the display filter, and the formatter that turns the owners of a
//! path into the names to show.

use vstd::prelude::*;

verus! {

/// Someone responsible for a path. The identifier is kept as the ruleset
/// wrote it, sigil included, and is what is displayed.
#[derive(Clone, Debug, PartialEq, Eq)]
pub enum Owner {
    /// A team, written `@org/team`.
    Team(String),
    /// A user, written `@user`.
    Username(String),
    /// An address, written `user@example.com`.
    Email(String),
}

/// An owner with its identifier as text.
pub enum OwnerView {
    Team(Seq<char>),
    Username(Seq<char>),
    Email(Seq<char>),
}

impl OwnerView {
    /// The display form: the identifier, whatever the variant.
    pub open spec fn name(self) -> Seq<char> {
        match self {
            OwnerView::Team(name) => name,
            OwnerView::Username(name) => name,
            OwnerView::Email(name) => name,
        }
    }
}

impl View for Owner {
    type V = OwnerView;

    open spec fn view(&self) -> OwnerView {
        match self {
            Owner::Team(name) => OwnerView::Team(name@),
            Owner::Username(name) => OwnerView::Username(name@),
            Owner::Email(name) => OwnerView::Email(name@),
        }
    }
}

impl DeepView for Owner {
    type V = OwnerView;

    open spec fn deep_view(&self) -> OwnerView {
        self@
    }
}

impl Owner {
    /// The display form of this owner.
    pub fn display(&self) -> (name: String)
        ensures
            name@ == self@.name(),
    {
        match self {
            Owner::Team(name) => name.clone(),
            Owner::Username(name) => name.clone(),
            Owner::Email(name) => name.clone(),
        }
    }
}

/// Which owners are shown. The four choices exclude one another.
#[derive(Clone, Copy, Debug, PartialEq, Eq, Structural)]
pub enum Settings {
    /// Every owner.
    All,
    /// Teams and nobody else.
    TeamsOnly,
    /// Users and nobody else.
    UsersOnly,
    /// Addresses and nobody else.
    EmailsOnly,
}

impl Settings {
    /// The filter that three switches ask for. Where several are on, the
    /// first of teams, users, emails decides.
    pub open spec fn of_flags(teams: bool, users: bool, emails: bool) -> Settings {
        if teams {
            Settings::TeamsOnly
        } else if users {
            Settings::UsersOnly
        } else if emails {
            Settings::EmailsOnly
        } else {
            Settings::All
        }
    }

    /// Whether an owner passes the filter.
    pub open spec fn admits(self, owner: OwnerView) -> bool {
        match self {
            Settings::All => true,
            Settings::TeamsOnly => owner is Team,
            Settings::UsersOnly => owner is Username,
            Settings::EmailsOnly => owner is Email,
        }
    }

    /// What is shown of one owner: its name if it passes the filter.
    pub open spec fn rendered(self, owner: OwnerView) -> Option<Seq<char>> {
        if self.admits(owner) {
            Some(owner.name())
        } else {
            None
        }
    }

    /// `rendered` as a function of the owner alone.
    pub open spec fn renderer(self) -> spec_fn(OwnerView) -> Option<Seq<char>> {
        |owner: OwnerView| self.rendered(owner)
    }

    /// The filter that three switches ask for.
    pub fn from_flags(teams: bool, users: bool, emails: bool) -> (settings: Settings)
        ensures
            settings == Settings::of_flags(teams, users, emails),
    {
        if teams {
            Settings::TeamsOnly
        } else if users {
            Settings::UsersOnly
        } else if emails {
            Settings::EmailsOnly
        } else {
            Settings::All
        }
    }

    /// The name of an owner if it passes the filter.
    pub fn render(&self, owner: &Owner) -> (name: Option<String>)
        ensures
            name.deep_view() == self.rendered(owner@),
    {
        match (self, owner) {
            (Settings::All, _) => Some(owner.display()),
            (Settings::TeamsOnly, Owner::Team(name)) => Some(name.clone()),
            (Settings::UsersOnly, Owner::Username(name)) => Some(name.clone()),
            (Settings::EmailsOnly, Owner::Email(name)) => Some(name.clone()),
            _ => None,
        }
    }
}

/// The names shown for a list of owners: those that pass the filter, in the
/// order of the list.
pub open spec fn shown(owners: Seq<OwnerView>, settings: Settings) -> Seq<Seq<char>> {
    owners.filter_map(settings.renderer())
}

/// Filters and renders the owners of a path. An empty result may mean that
/// the list was empty or that the filter hid every owner in it.
pub fn format_owners(owners: &Vec<Owner>, settings: Settings) -> (names: Vec<String>)
    ensures
        names.deep_view() == shown(owners.deep_view(), settings),
{
    let mut names: Vec<String> = Vec::new();
    let mut i: usize = 0;
    assert(names.deep_view() =~= shown(owners.deep_view().take(0), settings));
    while i < owners.len()
        invariant
            i <= owners.len(),
            names.deep_view() == shown(owners.deep_view().take(i as int), settings),
        decreases owners.len() - i,
    {
        let ghost before = names.deep_view();
        proof {
            owners.deep_view().lemma_filter_map_take_succ(settings.renderer(), i as int);
        }
        match settings.render(&owners[i]) {
            Some(name) => {
                names.push(name);
                assert(names.deep_view() =~= before.push(name@));
            },
            None => {},
        }
        i = i + 1;
    }
    assert(owners.deep_view().take(owners.len() as int) =~= owners.deep_view());
    names
}

} // verus!
