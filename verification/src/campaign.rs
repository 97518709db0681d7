use std::collections::HashMap;
use vstd::prelude::*;
use vstd::std_specs::hash::*;

verus! {

/// What a campaign raises money for.
#[derive(Clone, Debug, PartialEq)]
pub enum CampaignType {
    Business,
    Charity,
}

/// A registered business.
#[derive(Clone, Debug, PartialEq)]
pub struct Business {
    pub id: u64,
    pub name: String,
    pub description: String,
}

/// One donation to a campaign.
#[derive(Clone, Debug, PartialEq)]
pub struct Donation {
    pub donor: String,
    pub amount: u64,
    pub campaign_id: u64,
}

/// A reward that a campaign offers.
#[derive(Clone, Debug, PartialEq)]
pub struct Reward {
    pub title: String,
    pub description: String,
}

/// The reward for donations of at least an amount.
#[derive(Clone, Debug, PartialEq)]
pub struct RewardTier {
    pub amount: u64,
    pub reward: String,
}

/// A campaign and the donations it has received.
#[derive(Clone, Debug, PartialEq)]
pub struct Campaign {
    pub id: u64,
    pub title: String,
    pub description: String,
    pub target_amount: u64,
    pub current_amount: u64,
    pub donations: Vec<Donation>,
    pub campaign_type: CampaignType,
    pub rewards: HashMap<u64, Reward>,
    pub reward_tiers: Vec<RewardTier>,
    pub start_date: u64,
    pub end_date: u64,
    pub updates: Vec<String>,
    pub social_links: Vec<String>,
    pub audit_report: Option<String>,
    pub progress_report: Option<String>,
}

/// The campaigns to which one donor gives again and again, each of them
/// once.
#[derive(Clone, Debug, PartialEq)]
pub struct DonorDonations {
    pub donor: String,
    pub campaigns: Vec<u64>,
}

/// All campaigns and businesses of the platform.
#[derive(Clone, Debug, PartialEq)]
pub struct CrowdfundingPlatform {
    pub campaigns: HashMap<u64, Campaign>,
    pub businesses: HashMap<u64, Business>,
    pub next_campaign_id: u64,
    pub next_business_id: u64,
    /// The recurring donations, one entry for each donor that has any.
    pub donor_donations: Vec<DonorDonations>,
}

/// A request that changes the platform.
#[derive(Clone, Debug, PartialEq)]
pub enum HandleMsg {
    RegisterBusiness { name: String, description: String },
    CreateCampaign {
        title: String,
        description: String,
        target_amount: u64,
        campaign_type: CampaignType,
        start_date: u64,
        end_date: u64,
        social_links: Vec<String>,
        reward_tiers: Vec<RewardTier>,
    },
    Donate { campaign_id: u64, amount: u64, recurring: bool },
    ClaimReward { campaign_id: u64, reward_id: u64 },
    UpdateProgress { campaign_id: u64, progress_report: String },
}

/// A question about the platform.
#[derive(Clone, Debug, PartialEq)]
pub enum QueryMsg {
    GetCampaign { campaign_id: u64 },
}

/// The answer to a question about the platform.
#[derive(Clone, Debug, PartialEq)]
pub enum QueryResponse {
    Campaign(Campaign),
}

/// Why a donation was refused.
#[derive(Clone, Copy, Debug, PartialEq, Eq, Structural)]
pub enum DonateError {
    /// No campaign has the given identifier.
    CampaignNotFound,
    /// The campaign's amount would leave the range of 64-bit integers.
    AmountOverflow,
}

/// The campaigns that `donor` gives to again and again.
pub open spec fn recurring_of(records: Seq<DonorDonations>, donor: Seq<char>) -> Set<u64> {
    Set::new(
        |c: u64|
            exists|i: int|
                0 <= i < records.len() && (#[trigger] records[i]).donor@ == donor
                    && records[i].campaigns@.contains(c),
    )
}

/// Whether `after` is `before` with one more donation of `amount` by `donor`,
/// made under the identifier `campaign_id`.
pub open spec fn received(
    before: Campaign,
    after: Campaign,
    donor: Seq<char>,
    amount: u64,
    campaign_id: u64,
) -> bool {
    &&& after.id == before.id
    &&& after.title == before.title
    &&& after.description == before.description
    &&& after.target_amount == before.target_amount
    &&& after.current_amount == before.current_amount + amount
    &&& after.donations@.len() == before.donations@.len() + 1
    &&& after.donations@.drop_last() == before.donations@
    &&& after.donations@.last().donor@ == donor
    &&& after.donations@.last().amount == amount
    &&& after.donations@.last().campaign_id == campaign_id
    &&& after.campaign_type == before.campaign_type
    &&& after.rewards == before.rewards
    &&& after.reward_tiers == before.reward_tiers
    &&& after.start_date == before.start_date
    &&& after.end_date == before.end_date
    &&& after.updates == before.updates
    &&& after.social_links == before.social_links
    &&& after.audit_report == before.audit_report
    &&& after.progress_report == before.progress_report
}

/// Whether every donor has one entry, and every entry holds each of its
/// campaigns once.
pub open spec fn recurring_wf(records: Seq<DonorDonations>) -> bool {
    &&& forall|i: int, j: int|
        0 <= i < j < records.len() ==> (#[trigger] records[i]).donor@ != (
        #[trigger] records[j]).donor@
    &&& forall|i: int, a: int, b: int|
        0 <= i < records.len() && 0 <= a < b < records[i].campaigns@.len()
            ==> #[trigger] records[i].campaigns@[a] != #[trigger] records[i].campaigns@[b]
}

/// Whether `campaign_id` is one of `campaigns`.
fn holds_campaign(campaigns: &Vec<u64>, campaign_id: u64) -> (r: bool)
    ensures
        r == campaigns@.contains(campaign_id),
{
    let mut k: usize = 0;
    while k < campaigns.len()
        invariant
            k <= campaigns@.len(),
            forall|j: int| 0 <= j < k ==> campaigns@[j] != campaign_id,
        decreases campaigns@.len() - k,
    {
        if campaigns[k] == campaign_id {
            return true;
        }
        k += 1;
    }
    false
}

/// Notes that `donor` gives to `campaign_id` again and again. A campaign
/// that the donor gives to already is not noted again.
fn subscribe(records: &mut Vec<DonorDonations>, donor: String, campaign_id: u64)
    ensures
        recurring_wf(old(records)@) ==> recurring_wf(final(records)@),
        forall|d: Seq<char>|
            #![trigger recurring_of(final(records)@, d)]
            recurring_of(final(records)@, d) == if d == donor@ {
                recurring_of(old(records)@, d).insert(campaign_id)
            } else {
                recurring_of(old(records)@, d)
            },
{
    let ghost before = records@;
    let mut i: usize = 0;
    while i < records.len()
        invariant
            records@ == before,
            before == old(records)@,
            i <= records@.len(),
            forall|j: int| 0 <= j < i ==> (#[trigger] before[j]).donor@ != donor@,
        decreases records@.len() - i,
    {
        if records[i].donor == donor {
            if holds_campaign(&records[i].campaigns, campaign_id) {
                proof {
                    assert forall|d: Seq<char>|
                        #![trigger recurring_of(before, d)]
                        recurring_of(before, d) == if d == donor@ {
                            recurring_of(before, d).insert(campaign_id)
                        } else {
                            recurring_of(before, d)
                        } by {
                        if d == donor@ {
                            assert(before[i as int].campaigns@.contains(campaign_id));
                            assert(recurring_of(before, d).contains(campaign_id));
                            assert(recurring_of(before, d) =~= recurring_of(before, d).insert(
                                campaign_id,
                            ));
                        }
                    }
                }
                return ;
            }
            let mut entry = records.remove(i);
            let ghost known = entry.campaigns@;
            entry.campaigns.push(campaign_id);
            records.insert(i, entry);
            proof {
                let after = records@;
                assert(after.len() == before.len());
                if recurring_wf(before) {
                    assert forall|x: int, y: int| 0 <= x < y < after.len() implies (
                    #[trigger] after[x]).donor@ != (#[trigger] after[y]).donor@ by {
                        assert(after[x].donor@ == before[x].donor@);
                        assert(after[y].donor@ == before[y].donor@);
                    }
                    assert forall|x: int, a: int, b: int|
                        0 <= x < after.len() && 0 <= a < b < after[x].campaigns@.len()
                        implies #[trigger] after[x].campaigns@[a]
                        != #[trigger] after[x].campaigns@[b] by {
                        if x == i {
                            if b < known.len() {
                                assert(before[x].campaigns@[a] != before[x].campaigns@[b]);
                            } else {
                                assert(known[a] != campaign_id);
                            }
                        } else {
                            assert(after[x] == before[x]);
                            assert(before[x].campaigns@[a] != before[x].campaigns@[b]);
                        }
                    }
                }
                assert(after[i as int].donor@ == donor@);
                assert(after[i as int].campaigns@ == known.push(campaign_id));
                assert forall|j: int| 0 <= j < after.len() && j != i implies after[j]
                    == before[j] by {}
                assert forall|d: Seq<char>|
                    #![trigger recurring_of(after, d)]
                    recurring_of(after, d) == if d == donor@ {
                        recurring_of(before, d).insert(campaign_id)
                    } else {
                        recurring_of(before, d)
                    } by {
                    let want = if d == donor@ {
                        recurring_of(before, d).insert(campaign_id)
                    } else {
                        recurring_of(before, d)
                    };
                    assert forall|c: u64| recurring_of(after, d).contains(c) implies want.contains(
                        c,
                    ) by {
                        let j = choose|j: int|
                            0 <= j < after.len() && (#[trigger] after[j]).donor@ == d
                                && after[j].campaigns@.contains(c);
                        if j == i {
                            let k = choose|k: int|
                                0 <= k < after[j].campaigns@.len() && after[j].campaigns@[k] == c;
                            if k < known.len() {
                                assert(known[k] == c);
                                assert(before[j].campaigns@.contains(c));
                            }
                        } else {
                            assert(before[j].campaigns@.contains(c));
                        }
                    }
                    assert forall|c: u64| want.contains(c) implies recurring_of(after, d).contains(
                        c,
                    ) by {
                        if d == donor@ && c == campaign_id {
                            assert(after[i as int].campaigns@[known.len() as int] == c);
                            assert(after[i as int].campaigns@.contains(c));
                        } else {
                            let j = choose|j: int|
                                0 <= j < before.len() && (#[trigger] before[j]).donor@ == d
                                    && before[j].campaigns@.contains(c);
                            if j == i {
                                let k = choose|k: int|
                                    0 <= k < known.len() && known[k] == c;
                                assert(after[j].campaigns@[k] == c);
                                assert(after[j].campaigns@.contains(c));
                            } else {
                                assert(after[j].campaigns@.contains(c));
                            }
                        }
                    }
                    assert(recurring_of(after, d) =~= want);
                }
            }
            return ;
        }
        i += 1;
    }
    let ghost text = donor@;
    let mut campaigns: Vec<u64> = Vec::new();
    campaigns.push(campaign_id);
    records.push(DonorDonations { donor, campaigns });
    proof {
        let after = records@;
        let last = before.len() as int;
        assert(after[last].campaigns@[0] == campaign_id);
        if recurring_wf(before) {
            assert forall|x: int, y: int| 0 <= x < y < after.len() implies (
            #[trigger] after[x]).donor@ != (#[trigger] after[y]).donor@ by {
                if y < last {
                    assert(after[x] == before[x] && after[y] == before[y]);
                } else {
                    assert(after[x] == before[x]);
                }
            }
            assert forall|x: int, a: int, b: int|
                0 <= x < after.len() && 0 <= a < b < after[x].campaigns@.len()
                implies #[trigger] after[x].campaigns@[a] != #[trigger] after[x].campaigns@[b] by {
                if x < last {
                    assert(after[x] == before[x]);
                    assert(before[x].campaigns@[a] != before[x].campaigns@[b]);
                }
            }
        }
        assert forall|d: Seq<char>|
            #![trigger recurring_of(after, d)]
            recurring_of(after, d) == if d == text {
                recurring_of(before, d).insert(campaign_id)
            } else {
                recurring_of(before, d)
            } by {
            let want = if d == text {
                recurring_of(before, d).insert(campaign_id)
            } else {
                recurring_of(before, d)
            };
            assert forall|c: u64| recurring_of(after, d).contains(c) implies want.contains(c) by {
                let j = choose|j: int|
                    0 <= j < after.len() && (#[trigger] after[j]).donor@ == d
                        && after[j].campaigns@.contains(c);
                if j < last {
                    assert(after[j] == before[j]);
                    assert(before[j].campaigns@.contains(c));
                }
            }
            assert forall|c: u64| want.contains(c) implies recurring_of(after, d).contains(c) by {
                if d == text && c == campaign_id {
                    assert(after[last].campaigns@.contains(c));
                } else {
                    let j = choose|j: int|
                        0 <= j < before.len() && (#[trigger] before[j]).donor@ == d
                            && before[j].campaigns@.contains(c);
                    assert(after[j] == before[j]);
                    assert(after[j].campaigns@.contains(c));
                }
            }
            assert(recurring_of(after, d) =~= want);
        }
    }
}

/// Records a donation of `amount` by `donor` to the campaign `campaign_id`,
/// and, where the donation is a recurring one, that the donor gives to this
/// campaign again and again; no donor and no campaign of a donor is noted
/// twice. A donation to an unknown campaign, or one that would bring the
/// campaign's amount out of range, changes nothing.
pub fn donate(
    state: &mut CrowdfundingPlatform,
    donor: String,
    campaign_id: u64,
    amount: u64,
    recurring: bool,
) -> (r: Result<(), DonateError>)
    ensures
        match r {
            Ok(()) => {
                &&& old(state).campaigns@.contains_key(campaign_id)
                &&& final(state).campaigns@.dom() == old(state).campaigns@.dom()
                &&& received(
                    old(state).campaigns@[campaign_id],
                    final(state).campaigns@[campaign_id],
                    donor@,
                    amount,
                    campaign_id,
                )
                &&& forall|k: u64|
                    k != campaign_id && #[trigger] old(state).campaigns@.contains_key(k)
                        ==> final(state).campaigns@[k] == old(state).campaigns@[k]
                &&& recurring_wf(old(state).donor_donations@) ==> recurring_wf(
                    final(state).donor_donations@,
                )
                &&& !recurring ==> final(state).donor_donations == old(state).donor_donations
                &&& final(state).businesses == old(state).businesses
                &&& final(state).next_campaign_id == old(state).next_campaign_id
                &&& final(state).next_business_id == old(state).next_business_id
                &&& forall|d: Seq<char>|
                    #![trigger recurring_of(final(state).donor_donations@, d)]
                    recurring_of(final(state).donor_donations@, d) == if recurring && d == donor@ {
                        recurring_of(old(state).donor_donations@, d).insert(campaign_id)
                    } else {
                        recurring_of(old(state).donor_donations@, d)
                    }
            },
            Err(e) => {
                &&& *final(state) == *old(state)
                &&& e == if !old(state).campaigns@.contains_key(campaign_id) {
                    DonateError::CampaignNotFound
                } else {
                    DonateError::AmountOverflow
                }
                &&& old(state).campaigns@.contains_key(campaign_id) ==> old(
                    state,
                ).campaigns@[campaign_id].current_amount + amount > u64::MAX
            },
        },
{
    broadcast use group_hash_axioms;

    let total: u64 = match state.campaigns.get(&campaign_id) {
        None => {
            return Err(DonateError::CampaignNotFound);
        },
        Some(campaign) => match campaign.current_amount.checked_add(amount) {
            None => {
                return Err(DonateError::AmountOverflow);
            },
            Some(t) => t,
        },
    };
    let ghost before = state.campaigns@;
    match state.campaigns.remove(&campaign_id) {
        None => {},
        Some(mut campaign) => {
            campaign.current_amount = total;
            campaign.donations.push(Donation { donor: donor.clone(), amount, campaign_id });
            assert(campaign.donations@.drop_last() =~= before[campaign_id].donations@);
            state.campaigns.insert(campaign_id, campaign);
        },
    }
    assert(state.campaigns@.dom() =~= before.dom());
    if recurring {
        subscribe(&mut state.donor_donations, donor, campaign_id);
    }
    Ok(())
}

} // verus!
