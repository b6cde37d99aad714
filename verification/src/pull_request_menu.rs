//! The filter menu of the pull-requests page, and the sections that its rows stand in.

use vstd::prelude::*;

use crate::pull_requests::{
    query_of, shown_upto, ChecksFilter, DraftFilter, FilterStep, HostFilter, InvolvementFilter,
    Loadable, ProjectFilter, PullRequestFilters, PullRequestListItem, PullRequestsPage,
    ReviewFilter, Section, StateFilter,
};
use crate::text::{same_str, texts};

verus! {

// ---------------------------------------------------------------------------
// Choices
// ---------------------------------------------------------------------------

/// A value of one of the filters, as an option of the menu sets it.
pub enum FilterChoice {
    State(StateFilter),
    Involvement(InvolvementFilter),
    Draft(DraftFilter),
    Review(ReviewFilter),
    Checks(ChecksFilter),
    Host(HostFilter),
    Project(ProjectFilter),
}

/// A choice with the text of its repository.
pub enum ChoiceModel {
    State(StateFilter),
    Involvement(InvolvementFilter),
    Draft(DraftFilter),
    Review(ReviewFilter),
    Checks(ChecksFilter),
    Host(HostFilter),
    Project(Option<Seq<char>>),
}

/// The repository that a project filter names.
pub open spec fn project_name(project: ProjectFilter) -> Option<Seq<char>> {
    match project {
        ProjectFilter::All => None,
        ProjectFilter::Repository(repository) => Some(repository@),
    }
}

impl View for FilterChoice {
    type V = ChoiceModel;

    open spec fn view(&self) -> ChoiceModel {
        match *self {
            FilterChoice::State(value) => ChoiceModel::State(value),
            FilterChoice::Involvement(value) => ChoiceModel::Involvement(value),
            FilterChoice::Draft(value) => ChoiceModel::Draft(value),
            FilterChoice::Review(value) => ChoiceModel::Review(value),
            FilterChoice::Checks(value) => ChoiceModel::Checks(value),
            FilterChoice::Host(value) => ChoiceModel::Host(value),
            FilterChoice::Project(value) => ChoiceModel::Project(project_name(value)),
        }
    }
}

/// Whether the filters stand as a choice sets them.
pub open spec fn picked(filters: PullRequestFilters, choice: ChoiceModel) -> bool {
    match choice {
        ChoiceModel::State(value) => filters.state == value,
        ChoiceModel::Involvement(value) => filters.involvement == value,
        ChoiceModel::Draft(value) => filters.draft == value,
        ChoiceModel::Review(value) => filters.review == value,
        ChoiceModel::Checks(value) => filters.checks == value,
        ChoiceModel::Host(value) => filters.host == value,
        ChoiceModel::Project(value) => project_name(filters.project) == value,
    }
}

fn is_picked(filters: &PullRequestFilters, choice: &FilterChoice) -> (r: bool)
    ensures
        r == picked(*filters, choice@),
{
    match choice {
        FilterChoice::State(value) => filters.state == *value,
        FilterChoice::Involvement(value) => filters.involvement == *value,
        FilterChoice::Draft(value) => filters.draft == *value,
        FilterChoice::Review(value) => filters.review == *value,
        FilterChoice::Checks(value) => filters.checks == *value,
        FilterChoice::Host(value) => filters.host == *value,
        FilterChoice::Project(value) => match (value, &filters.project) {
            (ProjectFilter::All, ProjectFilter::All) => true,
            (ProjectFilter::Repository(a), ProjectFilter::Repository(b)) => same_str(
                a.as_str(),
                b.as_str(),
            ),
            _ => false,
        },
    }
}

/// The filters after a choice.
pub open spec fn chosen(filters: PullRequestFilters, choice: FilterChoice) -> PullRequestFilters {
    match choice {
        FilterChoice::State(value) => PullRequestFilters { state: value, ..filters },
        FilterChoice::Involvement(value) => PullRequestFilters { involvement: value, ..filters },
        FilterChoice::Draft(value) => PullRequestFilters { draft: value, ..filters },
        FilterChoice::Review(value) => PullRequestFilters { review: value, ..filters },
        FilterChoice::Checks(value) => PullRequestFilters { checks: value, ..filters },
        FilterChoice::Host(value) => PullRequestFilters { host: value, ..filters },
        FilterChoice::Project(value) => PullRequestFilters { project: value, ..filters },
    }
}

/// Whether the list is loaded anew after a choice: the engine filters by state, host and project,
/// and by involvement where that changes; the page filters what is loaded by the rest.
pub open spec fn reloads(filters: PullRequestFilters, choice: FilterChoice) -> bool {
    match choice {
        FilterChoice::State(_) | FilterChoice::Host(_) | FilterChoice::Project(_) => true,
        FilterChoice::Involvement(value) => filters.involvement != value,
        FilterChoice::Draft(_) | FilterChoice::Review(_) | FilterChoice::Checks(_) => false,
    }
}

/// Whether the menu closes after a choice: always, but for an involvement that already holds.
pub open spec fn closes(filters: PullRequestFilters, choice: FilterChoice) -> bool {
    match choice {
        FilterChoice::Involvement(value) => filters.involvement != value,
        _ => true,
    }
}

// ---------------------------------------------------------------------------
// The menu
// ---------------------------------------------------------------------------

/// An option of the menu, and whether it is the one that holds.
pub struct FilterOption {
    pub label: String,
    pub selected: bool,
    pub choice: FilterChoice,
}

pub struct OptionModel {
    pub label: Seq<char>,
    pub selected: bool,
    pub choice: ChoiceModel,
}

impl View for FilterOption {
    type V = OptionModel;

    open spec fn view(&self) -> OptionModel {
        OptionModel { label: self.label@, selected: self.selected, choice: self.choice@ }
    }
}

/// A heading of the menu and the options below it.
pub struct FilterGroup {
    pub heading: &'static str,
    pub options: Vec<FilterOption>,
}

pub struct GroupModel {
    pub heading: Seq<char>,
    pub options: Seq<OptionModel>,
}

pub open spec fn option_models(options: Seq<FilterOption>) -> Seq<OptionModel> {
    options.map_values(|option: FilterOption| option@)
}

impl View for FilterGroup {
    type V = GroupModel;

    open spec fn view(&self) -> GroupModel {
        GroupModel { heading: self.heading@, options: option_models(self.options@) }
    }
}

pub open spec fn group_models(groups: Seq<FilterGroup>) -> Seq<GroupModel> {
    groups.map_values(|group: FilterGroup| group@)
}

/// The option that sets `choice`.
pub open spec fn option_for(
    filters: PullRequestFilters,
    label: Seq<char>,
    choice: ChoiceModel,
) -> OptionModel {
    OptionModel { label, selected: picked(filters, choice), choice }
}

pub open spec fn state_options(filters: PullRequestFilters) -> Seq<OptionModel> {
    seq![
        option_for(filters, "All"@, ChoiceModel::State(StateFilter::All)),
        option_for(filters, "Open"@, ChoiceModel::State(StateFilter::Open)),
        option_for(filters, "Closed"@, ChoiceModel::State(StateFilter::Closed)),
        option_for(filters, "Merged"@, ChoiceModel::State(StateFilter::Merged)),
    ]
}

pub open spec fn involvement_options(filters: PullRequestFilters) -> Seq<OptionModel> {
    seq![
        option_for(filters, "All"@, ChoiceModel::Involvement(InvolvementFilter::All)),
        option_for(filters, "Reviewing"@, ChoiceModel::Involvement(InvolvementFilter::Reviewing)),
        option_for(filters, "Authored"@, ChoiceModel::Involvement(InvolvementFilter::Authored)),
    ]
}

pub open spec fn draft_options(filters: PullRequestFilters) -> Seq<OptionModel> {
    seq![
        option_for(filters, "All"@, ChoiceModel::Draft(DraftFilter::All)),
        option_for(filters, "Drafts only"@, ChoiceModel::Draft(DraftFilter::DraftsOnly)),
        option_for(filters, "Hide drafts"@, ChoiceModel::Draft(DraftFilter::HideDrafts)),
    ]
}

pub open spec fn review_options(filters: PullRequestFilters) -> Seq<OptionModel> {
    seq![
        option_for(filters, "All"@, ChoiceModel::Review(ReviewFilter::All)),
        option_for(filters, "Approved"@, ChoiceModel::Review(ReviewFilter::Approved)),
        option_for(
            filters,
            "Changes requested"@,
            ChoiceModel::Review(ReviewFilter::ChangesRequested),
        ),
        option_for(filters, "Review required"@, ChoiceModel::Review(ReviewFilter::Required)),
        option_for(filters, "No reviews"@, ChoiceModel::Review(ReviewFilter::NoReview)),
    ]
}

pub open spec fn checks_options(filters: PullRequestFilters) -> Seq<OptionModel> {
    seq![
        option_for(filters, "All"@, ChoiceModel::Checks(ChecksFilter::All)),
        option_for(filters, "Passing"@, ChoiceModel::Checks(ChecksFilter::Passing)),
        option_for(filters, "Failing"@, ChoiceModel::Checks(ChecksFilter::Failing)),
        option_for(filters, "Pending"@, ChoiceModel::Checks(ChecksFilter::Pending)),
    ]
}

pub open spec fn host_options(filters: PullRequestFilters) -> Seq<OptionModel> {
    seq![
        option_for(filters, "All hosts"@, ChoiceModel::Host(HostFilter::All)),
        option_for(filters, "GitHub"@, ChoiceModel::Host(HostFilter::Github)),
        option_for(filters, "Bitbucket"@, ChoiceModel::Host(HostFilter::Bitbucket)),
    ]
}

pub open spec fn project_options_of(
    filters: PullRequestFilters,
    projects: Seq<Seq<char>>,
) -> Seq<OptionModel> {
    seq![option_for(filters, "All projects"@, ChoiceModel::Project(None))] + projects.map_values(
        |name: Seq<char>| option_for(filters, name, ChoiceModel::Project(Some(name))),
    )
}

/// The menu: one group for each filter, the projects being those of the loaded list.
pub open spec fn menu_of(filters: PullRequestFilters, projects: Seq<Seq<char>>) -> Seq<GroupModel> {
    seq![
        GroupModel { heading: "State"@, options: state_options(filters) },
        GroupModel { heading: "Involvement"@, options: involvement_options(filters) },
        GroupModel { heading: "Draft"@, options: draft_options(filters) },
        GroupModel { heading: "Review"@, options: review_options(filters) },
        GroupModel { heading: "Checks"@, options: checks_options(filters) },
        GroupModel { heading: "Host"@, options: host_options(filters) },
        GroupModel { heading: "Project"@, options: project_options_of(filters, projects) },
    ]
}

/// Whether exactly one option is selected.
pub open spec fn one_selected(options: Seq<OptionModel>) -> bool {
    exists|i: int|
        {
            &&& 0 <= i < options.len()
            &&& (#[trigger] options[i]).selected
            &&& forall|j: int| 0 <= j < options.len() && (#[trigger] options[j]).selected ==> j == i
        }
}

/// Every filter but the project has exactly one option selected, and a repository that the list
/// holds is selected where it is filtered by.
pub proof fn law_one_option_is_selected(filters: PullRequestFilters, projects: Seq<Seq<char>>)
    requires
        forall|i: int, j: int|
            0 <= i < j < projects.len() ==> #[trigger] projects[i] != #[trigger] projects[j],
    ensures
        one_selected(state_options(filters)),
        one_selected(involvement_options(filters)),
        one_selected(draft_options(filters)),
        one_selected(review_options(filters)),
        one_selected(checks_options(filters)),
        one_selected(host_options(filters)),
        project_name(filters.project) is None || projects.contains(
            project_name(filters.project)->0,
        ) <==> one_selected(project_options_of(filters, projects)),
{
    let s = state_options(filters);
    assert(s[0].selected || s[1].selected || s[2].selected || s[3].selected);
    let s = involvement_options(filters);
    assert(s[0].selected || s[1].selected || s[2].selected);
    let s = draft_options(filters);
    assert(s[0].selected || s[1].selected || s[2].selected);
    let s = review_options(filters);
    assert(s[0].selected || s[1].selected || s[2].selected || s[3].selected || s[4].selected);
    let s = checks_options(filters);
    assert(s[0].selected || s[1].selected || s[2].selected || s[3].selected);
    let s = host_options(filters);
    assert(s[0].selected || s[1].selected || s[2].selected);
    let s = project_options_of(filters, projects);
    assert(s[0].selected == (project_name(filters.project) is None));
    assert forall|k: int| 1 <= k < s.len() implies (#[trigger] s[k]).selected == (project_name(
        filters.project,
    ) == Some(projects[k - 1])) by {}
    if project_name(filters.project) is Some {
        let name = project_name(filters.project)->0;
        if projects.contains(name) {
            let i = projects.index_of(name);
            assert(s[i + 1].selected);
            assert forall|j: int| 0 <= j < s.len() && (#[trigger] s[j]).selected implies j == i
                + 1 by {
                if j > 0 {
                    assert(projects[j - 1] == projects[i]);
                }
            }
        } else if one_selected(s) {
            let i = choose|i: int| 0 <= i < s.len() && (#[trigger] s[i]).selected;
            assert(projects[i - 1] == name);
        }
    } else {
        assert(s[0].selected);
    }
}

/// What is chosen holds, and choosing what holds already changes no filter.
pub proof fn law_a_choice_is_picked(filters: PullRequestFilters, choice: FilterChoice)
    ensures
        picked(chosen(filters, choice), choice@),
        picked(filters, choice@) ==> {
            let after = chosen(filters, choice);
            &&& after == (PullRequestFilters { project: after.project, ..filters })
            &&& project_name(after.project) == project_name(filters.project)
        },
{
}

fn option_of(filters: &PullRequestFilters, label: &str, choice: FilterChoice) -> (r: FilterOption)
    ensures
        r@ == option_for(*filters, label@, choice@),
{
    let selected = is_picked(filters, &choice);
    FilterOption { label: label.to_owned(), selected, choice }
}

fn state_group(filters: &PullRequestFilters) -> (r: FilterGroup)
    ensures
        r@ == (GroupModel { heading: "State"@, options: state_options(*filters) }),
{
    let mut options: Vec<FilterOption> = Vec::new();
    options.push(option_of(filters, "All", FilterChoice::State(StateFilter::All)));
    options.push(option_of(filters, "Open", FilterChoice::State(StateFilter::Open)));
    options.push(option_of(filters, "Closed", FilterChoice::State(StateFilter::Closed)));
    options.push(option_of(filters, "Merged", FilterChoice::State(StateFilter::Merged)));
    assert(option_models(options@) =~= state_options(*filters));
    FilterGroup { heading: "State", options }
}

fn involvement_group(filters: &PullRequestFilters) -> (r: FilterGroup)
    ensures
        r@ == (GroupModel { heading: "Involvement"@, options: involvement_options(*filters) }),
{
    let mut options: Vec<FilterOption> = Vec::new();
    options.push(option_of(filters, "All", FilterChoice::Involvement(InvolvementFilter::All)));
    options.push(
        option_of(filters, "Reviewing", FilterChoice::Involvement(InvolvementFilter::Reviewing)),
    );
    options.push(
        option_of(filters, "Authored", FilterChoice::Involvement(InvolvementFilter::Authored)),
    );
    assert(option_models(options@) =~= involvement_options(*filters));
    FilterGroup { heading: "Involvement", options }
}

fn draft_group(filters: &PullRequestFilters) -> (r: FilterGroup)
    ensures
        r@ == (GroupModel { heading: "Draft"@, options: draft_options(*filters) }),
{
    let mut options: Vec<FilterOption> = Vec::new();
    options.push(option_of(filters, "All", FilterChoice::Draft(DraftFilter::All)));
    options.push(option_of(filters, "Drafts only", FilterChoice::Draft(DraftFilter::DraftsOnly)));
    options.push(option_of(filters, "Hide drafts", FilterChoice::Draft(DraftFilter::HideDrafts)));
    assert(option_models(options@) =~= draft_options(*filters));
    FilterGroup { heading: "Draft", options }
}

fn review_group(filters: &PullRequestFilters) -> (r: FilterGroup)
    ensures
        r@ == (GroupModel { heading: "Review"@, options: review_options(*filters) }),
{
    let mut options: Vec<FilterOption> = Vec::new();
    options.push(option_of(filters, "All", FilterChoice::Review(ReviewFilter::All)));
    options.push(option_of(filters, "Approved", FilterChoice::Review(ReviewFilter::Approved)));
    options.push(
        option_of(
            filters,
            "Changes requested",
            FilterChoice::Review(ReviewFilter::ChangesRequested),
        ),
    );
    options.push(
        option_of(filters, "Review required", FilterChoice::Review(ReviewFilter::Required)),
    );
    options.push(option_of(filters, "No reviews", FilterChoice::Review(ReviewFilter::NoReview)));
    assert(option_models(options@) =~= review_options(*filters));
    FilterGroup { heading: "Review", options }
}

fn checks_group(filters: &PullRequestFilters) -> (r: FilterGroup)
    ensures
        r@ == (GroupModel { heading: "Checks"@, options: checks_options(*filters) }),
{
    let mut options: Vec<FilterOption> = Vec::new();
    options.push(option_of(filters, "All", FilterChoice::Checks(ChecksFilter::All)));
    options.push(option_of(filters, "Passing", FilterChoice::Checks(ChecksFilter::Passing)));
    options.push(option_of(filters, "Failing", FilterChoice::Checks(ChecksFilter::Failing)));
    options.push(option_of(filters, "Pending", FilterChoice::Checks(ChecksFilter::Pending)));
    assert(option_models(options@) =~= checks_options(*filters));
    FilterGroup { heading: "Checks", options }
}

fn host_group(filters: &PullRequestFilters) -> (r: FilterGroup)
    ensures
        r@ == (GroupModel { heading: "Host"@, options: host_options(*filters) }),
{
    let mut options: Vec<FilterOption> = Vec::new();
    options.push(option_of(filters, "All hosts", FilterChoice::Host(HostFilter::All)));
    options.push(option_of(filters, "GitHub", FilterChoice::Host(HostFilter::Github)));
    options.push(option_of(filters, "Bitbucket", FilterChoice::Host(HostFilter::Bitbucket)));
    assert(option_models(options@) =~= host_options(*filters));
    FilterGroup { heading: "Host", options }
}

fn project_group(filters: &PullRequestFilters, projects: &Vec<String>) -> (r: FilterGroup)
    ensures
        r@ == (GroupModel {
            heading: "Project"@,
            options: project_options_of(*filters, texts(projects@)),
        }),
{
    let ghost all = project_options_of(*filters, texts(projects@));
    let mut options: Vec<FilterOption> = Vec::new();
    options.push(option_of(filters, "All projects", FilterChoice::Project(ProjectFilter::All)));
    assert(option_models(options@) =~= all.take(1));
    for i in 0..projects.len()
        invariant
            all == project_options_of(*filters, texts(projects@)),
            option_models(options@) =~= all.take(i + 1),
    {
        let name = &projects[i];
        let ghost before = options@;
        options.push(
            option_of(
                filters,
                name.as_str(),
                FilterChoice::Project(ProjectFilter::Repository(name.clone())),
            ),
        );
        proof {
            assert(option_models(options@) =~= option_models(before).push(options@.last()@));
            assert(options@.last()@ == all[i + 1]);
            assert(all.take(i + 2) =~= all.take(i + 1).push(all[i + 1]));
        }
    }
    assert(all.take(all.len() as int) =~= all);
    FilterGroup { heading: "Project", options }
}

/// The projects that the menu offers: those of the loaded list, in order, each once.
pub open spec fn offers_projects(page: PullRequestsPage, projects: Seq<Seq<char>>) -> bool {
    &&& crate::pull_requests::ascending(projects)
    &&& match page.pull_requests {
        Loadable::Ready(items) => forall|name: Seq<char>| #[trigger]
            projects.contains(name) <==> crate::pull_requests::has_repository(items@, name),
        _ => projects.len() == 0,
    }
}

impl PullRequestsPage {
    /// The groups of the filter menu.
    pub fn filter_menu(&self) -> (r: Vec<FilterGroup>)
        ensures
            exists|projects: Seq<Seq<char>>| #[trigger]
                offers_projects(*self, projects) && group_models(r@) == menu_of(
                    self.filters,
                    projects,
                ),
    {
        let projects = self.project_options();
        let mut r: Vec<FilterGroup> = Vec::new();
        r.push(state_group(&self.filters));
        r.push(involvement_group(&self.filters));
        r.push(draft_group(&self.filters));
        r.push(review_group(&self.filters));
        r.push(checks_group(&self.filters));
        r.push(host_group(&self.filters));
        r.push(project_group(&self.filters, &projects));
        proof {
            assert(group_models(r@) =~= menu_of(self.filters, texts(projects@)));
            assert(texts(projects@).len() == projects@.len());
            assert(offers_projects(*self, texts(projects@)));
        }
        r
    }

    /// An option of the menu was chosen.
    pub fn choose_filter(&mut self, choice: FilterChoice) -> (r: FilterStep)
        ensures
            final(self).filters == chosen(old(self).filters, choice),
            r == (FilterStep {
                closes: closes(old(self).filters, choice),
                reloads: reloads(old(self).filters, choice),
            }),
            final(self).pull_requests == old(self).pull_requests,
            final(self).selected == old(self).selected,
            final(self).authored_accounts == old(self).authored_accounts,
            final(self).accounts_loaded == old(self).accounts_loaded,
            final(self).same_requests(*old(self)),
    {
        match choice {
            FilterChoice::State(value) => self.set_state(value),
            FilterChoice::Involvement(value) => self.set_involvement(value),
            FilterChoice::Draft(value) => self.set_draft(value),
            FilterChoice::Review(value) => self.set_review(value),
            FilterChoice::Checks(value) => self.set_checks(value),
            FilterChoice::Host(value) => self.set_host(value),
            FilterChoice::Project(value) => self.set_project(value),
        }
    }
}

// ---------------------------------------------------------------------------
// Sections
// ---------------------------------------------------------------------------

/// A section of the list with its rows, by their index among the loaded items.
pub struct RowSection {
    pub section: Section,
    pub rows: Vec<usize>,
}

/// The rows of one section, in the order of the list.
pub open spec fn rows_in(
    page: PullRequestsPage,
    items: Seq<PullRequestListItem>,
    rows: Seq<int>,
    section: Section,
) -> Seq<int>
    decreases rows.len(),
{
    if rows.len() == 0 {
        rows
    } else {
        let front = rows_in(page, items, rows.drop_last(), section);
        if page.section_of(items[rows.last()]) == section {
            front.push(rows.last())
        } else {
            front
        }
    }
}

/// A section as it is shown: not at all where it is empty.
pub open spec fn shown_section(section: Section, rows: Seq<int>) -> Seq<(Section, Seq<int>)> {
    if rows.len() == 0 {
        Seq::empty()
    } else {
        seq![(section, rows)]
    }
}

/// The sections of the shown rows: requested reviews, the user's own, and the rest.
pub open spec fn sections_of(
    page: PullRequestsPage,
    items: Seq<PullRequestListItem>,
    rows: Seq<int>,
) -> Seq<(Section, Seq<int>)> {
    shown_section(
        Section::ReviewRequested,
        rows_in(page, items, rows, Section::ReviewRequested),
    ) + shown_section(Section::Authored, rows_in(page, items, rows, Section::Authored))
        + shown_section(Section::Others, rows_in(page, items, rows, Section::Others))
}

pub open spec fn indices(rows: Seq<usize>) -> Seq<int> {
    rows.map_values(|i: usize| i as int)
}

pub open spec fn section_models(sections: Seq<RowSection>) -> Seq<(Section, Seq<int>)> {
    sections.map_values(|s: RowSection| (s.section, indices(s.rows@)))
}

/// Every row stands in the section that it belongs to and in no other, and none is lost.
pub proof fn law_every_row_has_its_section(
    page: PullRequestsPage,
    items: Seq<PullRequestListItem>,
    rows: Seq<int>,
)
    ensures
        rows_in(page, items, rows, Section::ReviewRequested).len() + rows_in(
            page,
            items,
            rows,
            Section::Authored,
        ).len() + rows_in(page, items, rows, Section::Others).len() == rows.len(),
        forall|section: Section, row: int| #[trigger]
            rows_in(page, items, rows, section).contains(row) <==> rows.contains(row)
                && page.section_of(items[row]) == section,
    decreases rows.len(),
{
    if rows.len() > 0 {
        let front = rows.drop_last();
        let last = rows.last();
        law_every_row_has_its_section(page, items, front);
        assert forall|row: int| #[trigger] rows.contains(row) <==> front.contains(row) || row
            == last by {
            if rows.contains(row) {
                let k = rows.index_of(row);
                if k < front.len() {
                    assert(front[k] == row);
                }
            }
            if front.contains(row) {
                let k = front.index_of(row);
                assert(rows[k] == row);
            }
            assert(rows[rows.len() - 1] == last);
        }
        assert forall|section: Section, row: int| #[trigger]
            rows_in(page, items, rows, section).contains(row) <==> rows.contains(row)
                && page.section_of(items[row]) == section by {
            let less = rows_in(page, items, front, section);
            let more = rows_in(page, items, rows, section);
            if page.section_of(items[last]) == section {
                assert(more == less.push(last));
                if more.contains(row) {
                    let k = more.index_of(row);
                    if k < less.len() {
                        assert(less[k] == row);
                    }
                }
                if less.contains(row) {
                    let k = less.index_of(row);
                    assert(more[k] == row);
                }
                assert(more[more.len() - 1] == last);
            }
        }
    }
}

impl PullRequestsPage {
    fn rows_of(&self, items: &Vec<PullRequestListItem>, rows: &Vec<usize>, section: Section) -> (r:
        Vec<usize>)
        requires
            forall|k: int| 0 <= k < rows@.len() ==> #[trigger] rows@[k] < items@.len(),
        ensures
            indices(r@) == rows_in(*self, items@, indices(rows@), section),
    {
        let ghost all = indices(rows@);
        let mut r: Vec<usize> = Vec::new();
        assert(indices(r@) =~= rows_in(*self, items@, all.take(0), section));
        for i in 0..rows.len()
            invariant
                forall|k: int| 0 <= k < rows@.len() ==> #[trigger] rows@[k] < items@.len(),
                all == indices(rows@),
                indices(r@) == rows_in(*self, items@, all.take(i as int), section),
        {
            let ghost before = r@;
            proof {
                let upto = all.take(i + 1);
                assert(upto.drop_last() =~= all.take(i as int));
                assert(upto.last() == rows@[i as int]);
            }
            if self.section(&items[rows[i]]) == section {
                r.push(rows[i]);
                assert(indices(r@) =~= indices(before).push(rows@[i as int] as int));
            }
        }
        assert(all.take(all.len() as int) =~= all);
        r
    }

    /// The sections of the list for a typed query, with nothing in them while no list is loaded.
    pub fn sections(&self, typed: &str) -> (r: Vec<RowSection>)
        ensures
            section_models(r@) == match self.pull_requests {
                Loadable::Ready(items) => sections_of(
                    *self,
                    items@,
                    shown_upto(self.filters, items@, query_of(typed@), items@.len()),
                ),
                _ => Seq::empty(),
            },
    {
        let mut r: Vec<RowSection> = Vec::new();
        assert(section_models(r@) =~= Seq::<(Section, Seq<int>)>::empty());
        let items = match &self.pull_requests {
            Loadable::Ready(items) => items,
            _ => {
                return r;
            },
        };
        let rows = self.rows(items, typed);
        let ghost shown = indices(rows@);
        let asked = self.rows_of(items, &rows, Section::ReviewRequested);
        let own = self.rows_of(items, &rows, Section::Authored);
        let others = self.rows_of(items, &rows, Section::Others);
        push_section(&mut r, Section::ReviewRequested, asked);
        push_section(&mut r, Section::Authored, own);
        push_section(&mut r, Section::Others, others);
        assert(section_models(r@) =~= sections_of(*self, items@, shown));
        r
    }
}

fn push_section(sections: &mut Vec<RowSection>, section: Section, rows: Vec<usize>)
    ensures
        section_models(final(sections)@) == section_models(old(sections)@) + shown_section(
            section,
            indices(rows@),
        ),
{
    let ghost before = sections@;
    if rows.len() > 0 {
        sections.push(RowSection { section, rows });
    }
    assert(section_models(sections@) =~= section_models(before) + shown_section(
        section,
        indices(rows@),
    ));
}

/// A choice sets its own filter and leaves the others as they were.
pub proof fn law_a_choice_sets_only_its_filter(filters: PullRequestFilters, choice: FilterChoice)
    ensures
        ({
            let after = chosen(filters, choice);
            &&& match choice {
                FilterChoice::State(value) => after.state == value,
                _ => after.state == filters.state,
            }
            &&& match choice {
                FilterChoice::Involvement(value) => after.involvement == value,
                _ => after.involvement == filters.involvement,
            }
            &&& match choice {
                FilterChoice::Draft(value) => after.draft == value,
                _ => after.draft == filters.draft,
            }
            &&& match choice {
                FilterChoice::Review(value) => after.review == value,
                _ => after.review == filters.review,
            }
            &&& match choice {
                FilterChoice::Checks(value) => after.checks == value,
                _ => after.checks == filters.checks,
            }
            &&& match choice {
                FilterChoice::Host(value) => after.host == value,
                _ => after.host == filters.host,
            }
            &&& match choice {
                FilterChoice::Project(value) => after.project == value,
                _ => after.project == filters.project,
            }
        }),
{
}

/// The list is loaded anew where the engine is asked for something else than before: a choice that
/// does not load it leaves the state, the host, the project and the involvement as they were.
pub proof fn law_choices_that_change_the_request_reload(
    filters: PullRequestFilters,
    choice: FilterChoice,
)
    requires
        !reloads(filters, choice),
    ensures
        chosen(filters, choice).state == filters.state,
        chosen(filters, choice).involvement == filters.involvement,
        chosen(filters, choice).host == filters.host,
        chosen(filters, choice).project == filters.project,
{
}

/// The options of a group set what their labels say: each value of the filter is offered once, and
/// the one that holds is selected.
#[verifier::rlimit(50)]
pub proof fn law_options_set_what_they_say(filters: PullRequestFilters, i: int)
    ensures
        0 <= i < 4 ==> {
            let option = state_options(filters)[i];
            option.choice matches ChoiceModel::State(value) && option.selected == (filters.state
                == value) && (option.label == "Open"@ <==> value == StateFilter::Open) && (
            option.label == "Closed"@ <==> value == StateFilter::Closed) && (option.label
                == "Merged"@ <==> value == StateFilter::Merged)
        },
        0 <= i < 3 ==> {
            let option = involvement_options(filters)[i];
            option.choice matches ChoiceModel::Involvement(value) && option.selected == (
            filters.involvement == value) && (option.label == "Reviewing"@ <==> value
                == InvolvementFilter::Reviewing) && (option.label == "Authored"@ <==> value
                == InvolvementFilter::Authored)
        },
        0 <= i < 3 ==> {
            let option = draft_options(filters)[i];
            option.choice matches ChoiceModel::Draft(value) && option.selected == (filters.draft
                == value) && (option.label == "Drafts only"@ <==> value == DraftFilter::DraftsOnly)
                && (option.label == "Hide drafts"@ <==> value == DraftFilter::HideDrafts)
        },
        0 <= i < 5 ==> {
            let option = review_options(filters)[i];
            option.choice matches ChoiceModel::Review(value) && option.selected == (filters.review
                == value) && (option.label == "Approved"@ <==> value == ReviewFilter::Approved) && (
            option.label == "Changes requested"@ <==> value == ReviewFilter::ChangesRequested) && (
            option.label == "Review required"@ <==> value == ReviewFilter::Required) && (
            option.label == "No reviews"@ <==> value == ReviewFilter::NoReview)
        },
        0 <= i < 4 ==> {
            let option = checks_options(filters)[i];
            option.choice matches ChoiceModel::Checks(value) && option.selected == (filters.checks
                == value) && (option.label == "Passing"@ <==> value == ChecksFilter::Passing) && (
            option.label == "Failing"@ <==> value == ChecksFilter::Failing) && (option.label
                == "Pending"@ <==> value == ChecksFilter::Pending)
        },
        0 <= i < 3 ==> {
            let option = host_options(filters)[i];
            option.choice matches ChoiceModel::Host(value) && option.selected == (filters.host
                == value) && (option.label == "GitHub"@ <==> value == HostFilter::Github) && (
            option.label == "Bitbucket"@ <==> value == HostFilter::Bitbucket)
        },
{
    reveal_strlit("All");
    reveal_strlit("Open");
    reveal_strlit("Closed");
    reveal_strlit("Merged");
    reveal_strlit("Reviewing");
    reveal_strlit("Authored");
    reveal_strlit("Drafts only");
    reveal_strlit("Hide drafts");
    reveal_strlit("Approved");
    reveal_strlit("Changes requested");
    reveal_strlit("Review required");
    reveal_strlit("No reviews");
    reveal_strlit("Passing");
    reveal_strlit("Failing");
    reveal_strlit("Pending");
    reveal_strlit("All hosts");
    reveal_strlit("GitHub");
    reveal_strlit("Bitbucket");
    assert("All"@[0] == 'A' && "Open"@[0] == 'O' && "Closed"@[0] == 'C' && "Merged"@[0] == 'M');
    assert("All"@[1] == 'l' && "Authored"@[1] == 'u' && "Approved"@[1] == 'p');
    assert("Reviewing"@[0] == 'R' && "Review required"@[0] == 'R' && "No reviews"@[0] == 'N');
    assert("Drafts only"@[0] == 'D' && "Hide drafts"@[0] == 'H' && "Changes requested"@[0] == 'C');
    assert("Passing"@[1] == 'a' && "Pending"@[1] == 'e' && "Failing"@[0] == 'F');
    assert("All hosts"@[0] == 'A' && "GitHub"@[0] == 'G' && "Bitbucket"@[0] == 'B');
}

/// The sections come in their order, requested reviews first and the user's own next; none is empty,
/// and each row that is shown stands in the section that it belongs to.
#[verifier::rlimit(50)]
pub proof fn law_sections_hold_the_shown_rows(
    page: PullRequestsPage,
    items: Seq<PullRequestListItem>,
    rows: Seq<int>,
)
    ensures
        ({
            let sections = sections_of(page, items, rows);
            &&& forall|s: int|
                0 <= s < sections.len() ==> (#[trigger] sections[s]).1.len() > 0 && forall|row: int|
                    sections[s].1.contains(row) <==> #[trigger] rows.contains(row)
                        && page.section_of(items[row]) == sections[s].0
            &&& forall|s: int, u: int|
                0 <= s < u < sections.len() ==> {
                    &&& (#[trigger] sections[s]).0 != (#[trigger] sections[u]).0
                    &&& sections[s].0 == Section::ReviewRequested || sections[u].0
                        == Section::Others
                }
            &&& forall|row: int| #[trigger]
                rows.contains(row) ==> exists|s: int|
                    0 <= s < sections.len() && (#[trigger] sections[s]).0 == page.section_of(
                        items[row],
                    )
        }),
{
    law_every_row_has_its_section(page, items, rows);
    let sections = sections_of(page, items, rows);
    let asked = rows_in(page, items, rows, Section::ReviewRequested);
    let own = rows_in(page, items, rows, Section::Authored);
    let rest = rows_in(page, items, rows, Section::Others);
    assert forall|s: int| 0 <= s < sections.len() implies (#[trigger] sections[s]).1 == rows_in(
        page,
        items,
        rows,
        sections[s].0,
    ) && sections[s].1.len() > 0 by {}
    let a: int = if asked.len() > 0 {
        1
    } else {
        0
    };
    let b: int = if own.len() > 0 {
        1
    } else {
        0
    };
    assert(asked.len() > 0 ==> sections[0].0 == Section::ReviewRequested);
    assert(own.len() > 0 ==> sections[a].0 == Section::Authored);
    assert(rest.len() > 0 ==> sections[a + b].0 == Section::Others);
    assert forall|row: int| #[trigger] rows.contains(row) implies exists|s: int|
        0 <= s < sections.len() && (#[trigger] sections[s]).0 == page.section_of(items[row]) by {
        let section = page.section_of(items[row]);
        assert(rows_in(page, items, rows, section).contains(row));
        assert(rows_in(page, items, rows, section).len() > 0);
    }
}

} // verus!
