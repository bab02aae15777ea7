//! The requests of a frontend that shows the profiles, and what each of them takes.
use crate::profiles::{
    staged, tunnel_path, wireguard_path, CatalogView, Draft, DraftView, ProfileError, ProfileFault,
    Staged, StagedView, Store, TEMPLATE, WG_TEMPLATE,
};
use vstd::prelude::*;

verus! {

/// The largest request: 512 KiB.
pub const MAX_REQUEST: usize = 524_288;

/// What a frontend asks for.
#[derive(Debug)]
pub enum Command {
    List,
    Template,
    Load(usize),
    Select(usize),
    Save(Option<usize>, Draft),
    Import(String),
    Dependencies,
}

#[verifier::ext_equal]
pub enum CommandView {
    List,
    Template,
    Load(usize),
    Select(usize),
    Save(Option<usize>, DraftView),
    Import(Seq<char>),
    Dependencies,
}

impl View for Command {
    type V = CommandView;

    open spec fn view(&self) -> CommandView {
        match *self {
            Command::List => CommandView::List,
            Command::Template => CommandView::Template,
            Command::Load(index) => CommandView::Load(index),
            Command::Select(index) => CommandView::Select(index),
            Command::Save(index, draft) => CommandView::Save(index, draft@),
            Command::Import(path) => CommandView::Import(path@),
            Command::Dependencies => CommandView::Dependencies,
        }
    }
}

/// What is left to do for a request.
#[derive(Debug)]
pub enum Step {
    /// Answer with the catalog.
    Catalog,
    /// Answer with a draft.
    Draft(Draft),
    /// Read the two files of a profile, and answer with its draft.
    Load(usize, String, String),
    /// Write the catalog, and answer with nothing.
    Persist,
    /// Write the two files of a draft and the catalog, and answer with its place.
    Save(Staged, String),
    /// Import the file of a path, and answer with its draft.
    Import(String),
    /// Answer whether the tools are there.
    Ready(bool),
}

#[verifier::ext_equal]
pub enum StepView {
    Catalog,
    Draft(DraftView),
    Load(usize, Seq<char>, Seq<char>),
    Persist,
    Save(StagedView, Seq<char>),
    Import(Seq<char>),
    Ready(bool),
}

impl View for Step {
    type V = StepView;

    open spec fn view(&self) -> StepView {
        match *self {
            Step::Catalog => StepView::Catalog,
            Step::Draft(draft) => StepView::Draft(draft@),
            Step::Load(index, tunnel, wireguard) => StepView::Load(index, tunnel@, wireguard@),
            Step::Persist => StepView::Persist,
            Step::Save(s, wireguard) => StepView::Save(s@, wireguard@),
            Step::Import(path) => StepView::Import(path@),
            Step::Ready(ready) => StepView::Ready(ready),
        }
    }
}

/// The draft of a new profile.
pub open spec fn new_draft() -> DraftView {
    DraftView { name: "新配置"@, tunnel: TEMPLATE@, wireguard: WG_TEMPLATE@ }
}

/// What is left to do for a request, or why it is refused.
pub open spec fn step_for(
    command: CommandView,
    root: Seq<char>,
    catalog: CatalogView,
    ready: bool,
) -> Result<StepView, ProfileFault> {
    match command {
        CommandView::List => Ok(StepView::Catalog),
        CommandView::Template => Ok(StepView::Draft(new_draft())),
        CommandView::Load(index) => if index < catalog.profiles.len() {
            Ok(
                StepView::Load(
                    index,
                    tunnel_path(root, catalog.profiles[index as int].id),
                    wireguard_path(root, catalog.profiles[index as int].id),
                ),
            )
        } else {
            Err(ProfileFault::NotSelected)
        },
        CommandView::Select(index) => if index < catalog.profiles.len() {
            Ok(StepView::Persist)
        } else {
            Err(ProfileFault::NotSelected)
        },
        CommandView::Save(index, draft) => match staged(
            draft,
            root,
            catalog.profiles.len(),
            index,
        ) {
            Ok(s) => Ok(StepView::Save(s, draft.wireguard)),
            Err(e) => Err(e),
        },
        CommandView::Import(path) => Ok(StepView::Import(path)),
        CommandView::Dependencies => Ok(StepView::Ready(ready)),
    }
}

/// The catalog after a request: it changes where a profile is selected, and only then.
pub open spec fn catalog_after(command: CommandView, catalog: CatalogView) -> CatalogView {
    match command {
        CommandView::Select(index) => if index < catalog.profiles.len() {
            CatalogView { selected: index, ..catalog }
        } else {
            catalog
        },
        _ => catalog,
    }
}

/// Begins a request. `ready` tells whether the tools are there.
pub fn execute(store: &mut Store, command: Command, ready: bool) -> (r: Result<Step, ProfileError>)
    ensures
        final(store).root@ == old(store).root@,
        final(store).catalog@ == catalog_after(command@, old(store).catalog@),
        match r {
            Ok(step) => step_for(command@, old(store).root@, old(store).catalog@, ready) == Ok::<
                _,
                ProfileFault,
            >(step@),
            Err(e) => step_for(command@, old(store).root@, old(store).catalog@, ready) == Err::<
                StepView,
                _,
            >(e@),
        },
{
    match command {
        Command::List => Ok(Step::Catalog),
        Command::Template => Ok(
            Step::Draft(
                Draft {
                    name: "新配置".to_owned(),
                    tunnel: TEMPLATE.to_owned(),
                    wireguard: WG_TEMPLATE.to_owned(),
                },
            ),
        ),
        Command::Load(index) => match (store.path(index), store.wireguard(index)) {
            (Ok(tunnel), Ok(wireguard)) => Ok(Step::Load(index, tunnel, wireguard)),
            (Err(e), _) => Err(e),
            (_, Err(e)) => Err(e),
        },
        Command::Select(index) => match store.select(index) {
            Ok(()) => Ok(Step::Persist),
            Err(e) => Err(e),
        },
        Command::Save(index, draft) => match store.stage(index, &draft) {
            Ok(s) => Ok(Step::Save(s, draft.wireguard)),
            Err(e) => Err(e),
        },
        Command::Import(path) => Ok(Step::Import(path)),
        Command::Dependencies => Ok(Step::Ready(ready)),
    }
}

/// Why a request is not even looked at.
pub fn request_fault(len: usize, understood: bool) -> (r: Option<&'static str>)
    ensures
        r is None <==> len <= MAX_REQUEST && understood,
        r matches Some(words) ==> words@ == if len > MAX_REQUEST {
            "desktop request too large"@
        } else {
            "invalid desktop request"@
        },
{
    if len > MAX_REQUEST {
        Some("desktop request too large")
    } else if !understood {
        Some("invalid desktop request")
    } else {
        None
    }
}

/// A request that is refused leaves the catalog as it was.
pub proof fn refused_requests_preserve_the_catalog(
    command: CommandView,
    root: Seq<char>,
    catalog: CatalogView,
    ready: bool,
)
    requires
        step_for(command, root, catalog, ready) is Err,
    ensures
        catalog_after(command, catalog) == catalog,
{
}

/// What is left to do for each request. A profile is loaded or selected where it is there, and a
/// draft saved where the store takes it; the rest is always answered.
pub proof fn requests_are_served(
    command: CommandView,
    root: Seq<char>,
    catalog: CatalogView,
    ready: bool,
)
    ensures
        ({
            let r = step_for(command, root, catalog, ready);
            match command {
                CommandView::List => r == Ok::<_, ProfileFault>(StepView::Catalog),
                CommandView::Template => r == Ok::<_, ProfileFault>(
                    StepView::Draft(
                        DraftView { name: "新配置"@, tunnel: TEMPLATE@, wireguard: WG_TEMPLATE@ },
                    ),
                ),
                CommandView::Load(index) => match r {
                    Ok(StepView::Load(i, tunnel, wireguard)) => {
                        &&& index < catalog.profiles.len() && i == index
                        &&& tunnel == tunnel_path(root, catalog.profiles[index as int].id)
                        &&& wireguard == wireguard_path(root, catalog.profiles[index as int].id)
                    },
                    Ok(_) => false,
                    Err(e) => index >= catalog.profiles.len() && e == ProfileFault::NotSelected,
                },
                CommandView::Select(index) => match r {
                    Ok(step) => index < catalog.profiles.len() && step == StepView::Persist,
                    Err(e) => index >= catalog.profiles.len() && e == ProfileFault::NotSelected,
                },
                CommandView::Save(index, draft) => match r {
                    Ok(StepView::Save(s, wireguard)) => staged(
                        draft,
                        root,
                        catalog.profiles.len(),
                        index,
                    ) == Ok::<_, ProfileFault>(s) && wireguard == draft.wireguard,
                    Ok(_) => false,
                    Err(e) => staged(draft, root, catalog.profiles.len(), index) == Err::<
                        StagedView,
                        _,
                    >(e),
                },
                CommandView::Import(path) => r == Ok::<_, ProfileFault>(StepView::Import(path)),
                CommandView::Dependencies => r == Ok::<_, ProfileFault>(StepView::Ready(ready)),
            }
        }),
{
}

/// A request changes nothing of the catalog but which profile is selected, and that only where the
/// profile is there and was asked for.
pub proof fn requests_select_at_most(command: CommandView, catalog: CatalogView)
    ensures
        catalog_after(command, catalog).profiles == catalog.profiles,
        catalog_after(command, catalog).selected == match command {
            CommandView::Select(index) if index < catalog.profiles.len() => index,
            _ => catalog.selected,
        },
{
}

/// The bound of a request, and the draft of a new profile.
pub proof fn new_drafts_and_requests()
    ensures
        MAX_REQUEST == 524_288,
        new_draft() == (DraftView { name: "新配置"@, tunnel: TEMPLATE@, wireguard: WG_TEMPLATE@ }),
{
}

} // verus!
