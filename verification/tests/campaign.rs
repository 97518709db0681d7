use crowdfund::campaign::{
    donate, Campaign, CampaignType, CrowdfundingPlatform, DonateError, DonorDonations,
};
use std::collections::HashMap;

fn sample_campaign(id: u64, current_amount: u64) -> Campaign {
    Campaign {
        id,
        title: "Test Campaign".to_string(),
        description: "Test Description".to_string(),
        target_amount: 1000,
        current_amount,
        donations: vec![],
        campaign_type: CampaignType::Business,
        rewards: HashMap::new(),
        reward_tiers: vec![],
        start_date: 0,
        end_date: 0,
        updates: vec![],
        social_links: vec![],
        audit_report: None,
        progress_report: None,
    }
}

fn empty_platform() -> CrowdfundingPlatform {
    CrowdfundingPlatform {
        campaigns: HashMap::new(),
        businesses: HashMap::new(),
        next_campaign_id: 2,
        next_business_id: 1,
        donor_donations: vec![],
    }
}

fn platform_with(campaign: Campaign) -> CrowdfundingPlatform {
    let mut state = empty_platform();
    state.campaigns.insert(campaign.id, campaign);
    state
}

#[test]
fn test_invalid_donate_campaign_not_exist() {
    let mut state = empty_platform();
    let res = donate(&mut state, "donor".to_string(), 1, 100, false);
    assert!(res.is_err());
}

#[test]
fn test_boundary_case_donate_recurring() {
    let mut state = empty_platform();
    let res = donate(&mut state, "donor".to_string(), 1, u64::MAX, true);
    assert!(res.is_err());
}

#[test]
fn test_gas_consumption_donate() {
    let mut state = platform_with(sample_campaign(1, 0));
    donate(&mut state, "donor".to_string(), 1, 100, false).unwrap();
}

#[test]
fn test_recurring_donations() {
    let donor = "donor";
    let campaign_id = 1;
    let mut state = platform_with(sample_campaign(campaign_id, 0));
    let amount = 100;
    let recurring = true;
    donate(&mut state, donor.to_string(), campaign_id, amount, recurring).unwrap();

    let donor_donations = state.donor_donations.iter().find(|d| d.donor == donor).unwrap();
    assert!(donor_donations.campaigns.contains(&campaign_id));

    let updated_campaign = state.campaigns.get(&campaign_id).unwrap();
    assert_eq!(updated_campaign.current_amount, amount);
}

#[test]
fn donation_is_recorded_with_the_campaign() {
    let mut state = platform_with(sample_campaign(1, 0));
    donate(&mut state, "donor".to_string(), 1, 500, false).unwrap();
    let campaign = state.campaigns.get(&1).unwrap();
    assert_eq!(campaign.current_amount, 500);
    assert_eq!(campaign.donations.len(), 1);
    assert_eq!(campaign.donations[0].amount, 500);
    assert_eq!(campaign.donations[0].donor, "donor");
    assert_eq!(campaign.donations[0].campaign_id, 1);
    assert_eq!(campaign.title, "Test Campaign");
    assert!(state.donor_donations.is_empty());
    assert_eq!(state.next_campaign_id, 2);
}

#[test]
fn donations_add_up() {
    let mut state = platform_with(sample_campaign(1, 0));
    donate(&mut state, "a".to_string(), 1, 100, false).unwrap();
    donate(&mut state, "b".to_string(), 1, 250, false).unwrap();
    let campaign = state.campaigns.get(&1).unwrap();
    assert_eq!(campaign.current_amount, 350);
    assert_eq!(campaign.donations.len(), 2);
    assert_eq!(campaign.donations[1].donor, "b");
}

#[test]
fn donation_to_unknown_campaign_changes_nothing() {
    let mut state = platform_with(sample_campaign(1, 7));
    let before = state.clone();
    let res = donate(&mut state, "donor".to_string(), 2, 100, true);
    assert_eq!(res, Err(DonateError::CampaignNotFound));
    assert_eq!(state, before);
}

#[test]
fn donation_out_of_range_changes_nothing() {
    let mut state = platform_with(sample_campaign(1, 1));
    let before = state.clone();
    let res = donate(&mut state, "donor".to_string(), 1, u64::MAX, true);
    assert_eq!(res, Err(DonateError::AmountOverflow));
    assert_eq!(state, before);
}

#[test]
fn recurring_donations_of_one_donor_share_an_entry() {
    let mut state = platform_with(sample_campaign(1, 0));
    state.campaigns.insert(2, sample_campaign(2, 0));
    donate(&mut state, "donor".to_string(), 1, 10, true).unwrap();
    donate(&mut state, "other".to_string(), 1, 10, true).unwrap();
    donate(&mut state, "donor".to_string(), 2, 10, true).unwrap();
    assert_eq!(
        state.donor_donations,
        vec![
            DonorDonations { donor: "donor".to_string(), campaigns: vec![1, 2] },
            DonorDonations { donor: "other".to_string(), campaigns: vec![1] },
        ]
    );
}

#[test]
fn recurring_donation_to_one_campaign_is_noted_once() {
    let mut state = platform_with(sample_campaign(1, 0));
    donate(&mut state, "donor".to_string(), 1, 10, true).unwrap();
    donate(&mut state, "donor".to_string(), 1, 20, true).unwrap();
    donate(&mut state, "donor".to_string(), 1, 30, false).unwrap();
    assert_eq!(
        state.donor_donations,
        vec![DonorDonations { donor: "donor".to_string(), campaigns: vec![1] }]
    );
    let campaign = state.campaigns.get(&1).unwrap();
    assert_eq!(campaign.current_amount, 60);
    assert_eq!(campaign.donations.len(), 3);
}
