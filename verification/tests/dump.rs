//! Dumps of models as text.

use xgb::{Booster, Call, DumpEvent, DumpStep, FeatureMap, Step, XGBError};

const TREES: [&str; 10] = [
    "0:[f29<2.00001001] yes=1,no=2,missing=2,gain=4000.53101,cover=1628.25\n\
\t1:[f109<2.00001001] yes=3,no=4,missing=4,gain=198.173828,cover=703.75\n\
\t\t3:leaf=1.85964918,cover=13.25\n\
\t\t4:leaf=-1.94070864,cover=690.5\n\
\t2:[f56<2.00001001] yes=5,no=6,missing=6,gain=1158.21204,cover=924.5\n\
\t\t5:leaf=-1.70044053,cover=112.5\n\
\t\t6:leaf=1.71217716,cover=812\n",
    "0:[f60<2.00001001] yes=1,no=2,missing=2,gain=832.544983,cover=788.852051\n\
\t1:leaf=-6.23624468,cover=20.462389\n\
\t2:[f29<2.00001001] yes=3,no=4,missing=4,gain=569.725098,cover=768.389709\n\
\t\t3:leaf=-0.968530357,cover=309.45282\n\
\t\t4:leaf=0.78471756,cover=458.936859\n",
    "0:[f102<2.00001001] yes=1,no=2,missing=2,gain=368.744568,cover=457.069458\n\
\t1:[f111<2.00001001] yes=3,no=4,missing=4,gain=258.184326,cover=236.018005\n\
\t\t3:leaf=-9.421422,cover=2.53038669\n\
\t\t4:leaf=-0.791407049,cover=233.487625\n\
\t2:[f67<2.00001001] yes=5,no=6,missing=6,gain=226.336975,cover=221.051468\n\
\t\t5:leaf=5.77228642,cover=8.05200672\n\
\t\t6:leaf=0.658725023,cover=212.999451\n",
    "0:[f27<2.00001001] yes=1,no=2,missing=2,gain=140.486053,cover=364.119354\n\
\t1:leaf=1.07747853,cover=90.0174103\n\
\t2:[f39<2.00001001] yes=3,no=4,missing=4,gain=139.860519,cover=274.101959\n\
\t\t3:leaf=-0.877905607,cover=178.241974\n\
\t\t4:leaf=0.614153326,cover=95.8599854\n",
    "0:[f109<2.00001001] yes=1,no=2,missing=2,gain=112.605019,cover=189.202194\n\
\t1:leaf=2.92190909,cover=11.4303684\n\
\t2:[f36<2.00001001] yes=3,no=4,missing=4,gain=66.4029999,cover=177.771835\n\
\t\t3:leaf=0.152607277,cover=135.494431\n\
\t\t4:leaf=-1.26934469,cover=42.277401\n",
    "0:[f23<2.00001001] yes=1,no=2,missing=2,gain=52.5610313,cover=170.612762\n\
\t1:[f36<2.00001001] yes=3,no=4,missing=4,gain=12.4420547,cover=19.731596\n\
\t\t3:leaf=-1.02315068,cover=16.0739021\n\
\t\t4:leaf=-3.02413678,cover=3.65769386\n\
\t2:[f24<2.00001001] yes=5,no=6,missing=6,gain=67.3869553,cover=150.881165\n\
\t\t5:leaf=-1.53846073,cover=18.9789505\n\
\t\t6:leaf=0.431742132,cover=131.902222\n",
    "0:[f29<2.00001001] yes=1,no=2,missing=2,gain=66.2389145,cover=142.360611\n\
\t1:[f109<2.00001001] yes=3,no=4,missing=4,gain=12.1987419,cover=69.6048737\n\
\t\t3:leaf=0.836115122,cover=3.48375821\n\
\t\t4:leaf=-0.912605286,cover=66.1211166\n\
\t2:[f24<2.00001001] yes=5,no=6,missing=6,gain=31.229435,cover=72.7557373\n\
\t\t5:leaf=-1.19710124,cover=8.22473907\n\
\t\t6:leaf=0.777142286,cover=64.5309982\n",
    "0:[f39<2.00001001] yes=1,no=2,missing=2,gain=20.6531773,cover=79.4027634\n\
\t1:[f27<2.00001001] yes=3,no=4,missing=4,gain=22.1144371,cover=44.4738464\n\
\t\t3:leaf=0.890622675,cover=7.49097395\n\
\t\t4:leaf=-0.908311546,cover=36.982872\n\
\t2:[f112<2.00001001] yes=5,no=6,missing=6,gain=16.0703697,cover=34.9289207\n\
\t\t5:leaf=1.4361918,cover=9.89693928\n\
\t\t6:leaf=-0.0180106498,cover=25.0319824\n",
    "0:[f23<2.00001001] yes=1,no=2,missing=2,gain=11.7128553,cover=53.3251991\n\
\t1:leaf=-1.01502442,cover=9.02525806\n\
\t2:[f102<2.00001001] yes=3,no=4,missing=4,gain=12.5461531,cover=44.299942\n\
\t\t3:leaf=0.56883812,cover=28.5100231\n\
\t\t4:leaf=-0.515293062,cover=15.7899179\n",
    "0:[f115<2.00001001] yes=1,no=2,missing=2,gain=14.8892794,cover=45.9312019\n\
\t1:[f61<2.00001001] yes=3,no=4,missing=4,gain=19.3462334,cover=2.87474418\n\
\t\t3:leaf=-0.609474957,cover=1.53319895\n\
\t\t4:leaf=3.63442755,cover=1.34154534\n\
\t2:[f29<2.00001001] yes=5,no=6,missing=6,gain=10.1308861,cover=43.0564575\n\
\t\t5:leaf=-0.734555721,cover=20.7280827\n\
\t\t6:leaf=0.217203051,cover=22.3283749\n",
];

const DUMP: &str = "0:[f29<2.00001001] yes=1,no=2,missing=2,gain=4000.53101,cover=1628.25
	1:[f109<2.00001001] yes=3,no=4,missing=4,gain=198.173828,cover=703.75
		3:leaf=1.85964918,cover=13.25
		4:leaf=-1.94070864,cover=690.5
	2:[f56<2.00001001] yes=5,no=6,missing=6,gain=1158.21204,cover=924.5
		5:leaf=-1.70044053,cover=112.5
		6:leaf=1.71217716,cover=812

0:[f60<2.00001001] yes=1,no=2,missing=2,gain=832.544983,cover=788.852051
	1:leaf=-6.23624468,cover=20.462389
	2:[f29<2.00001001] yes=3,no=4,missing=4,gain=569.725098,cover=768.389709
		3:leaf=-0.968530357,cover=309.45282
		4:leaf=0.78471756,cover=458.936859

0:[f102<2.00001001] yes=1,no=2,missing=2,gain=368.744568,cover=457.069458
	1:[f111<2.00001001] yes=3,no=4,missing=4,gain=258.184326,cover=236.018005
		3:leaf=-9.421422,cover=2.53038669
		4:leaf=-0.791407049,cover=233.487625
	2:[f67<2.00001001] yes=5,no=6,missing=6,gain=226.336975,cover=221.051468
		5:leaf=5.77228642,cover=8.05200672
		6:leaf=0.658725023,cover=212.999451

0:[f27<2.00001001] yes=1,no=2,missing=2,gain=140.486053,cover=364.119354
	1:leaf=1.07747853,cover=90.0174103
	2:[f39<2.00001001] yes=3,no=4,missing=4,gain=139.860519,cover=274.101959
		3:leaf=-0.877905607,cover=178.241974
		4:leaf=0.614153326,cover=95.8599854

0:[f109<2.00001001] yes=1,no=2,missing=2,gain=112.605019,cover=189.202194
	1:leaf=2.92190909,cover=11.4303684
	2:[f36<2.00001001] yes=3,no=4,missing=4,gain=66.4029999,cover=177.771835
		3:leaf=0.152607277,cover=135.494431
		4:leaf=-1.26934469,cover=42.277401

0:[f23<2.00001001] yes=1,no=2,missing=2,gain=52.5610313,cover=170.612762
	1:[f36<2.00001001] yes=3,no=4,missing=4,gain=12.4420547,cover=19.731596
		3:leaf=-1.02315068,cover=16.0739021
		4:leaf=-3.02413678,cover=3.65769386
	2:[f24<2.00001001] yes=5,no=6,missing=6,gain=67.3869553,cover=150.881165
		5:leaf=-1.53846073,cover=18.9789505
		6:leaf=0.431742132,cover=131.902222

0:[f29<2.00001001] yes=1,no=2,missing=2,gain=66.2389145,cover=142.360611
	1:[f109<2.00001001] yes=3,no=4,missing=4,gain=12.1987419,cover=69.6048737
		3:leaf=0.836115122,cover=3.48375821
		4:leaf=-0.912605286,cover=66.1211166
	2:[f24<2.00001001] yes=5,no=6,missing=6,gain=31.229435,cover=72.7557373
		5:leaf=-1.19710124,cover=8.22473907
		6:leaf=0.777142286,cover=64.5309982

0:[f39<2.00001001] yes=1,no=2,missing=2,gain=20.6531773,cover=79.4027634
	1:[f27<2.00001001] yes=3,no=4,missing=4,gain=22.1144371,cover=44.4738464
		3:leaf=0.890622675,cover=7.49097395
		4:leaf=-0.908311546,cover=36.982872
	2:[f112<2.00001001] yes=5,no=6,missing=6,gain=16.0703697,cover=34.9289207
		5:leaf=1.4361918,cover=9.89693928
		6:leaf=-0.0180106498,cover=25.0319824

0:[f23<2.00001001] yes=1,no=2,missing=2,gain=11.7128553,cover=53.3251991
	1:leaf=-1.01502442,cover=9.02525806
	2:[f102<2.00001001] yes=3,no=4,missing=4,gain=12.5461531,cover=44.299942
		3:leaf=0.56883812,cover=28.5100231
		4:leaf=-0.515293062,cover=15.7899179

0:[f115<2.00001001] yes=1,no=2,missing=2,gain=14.8892794,cover=45.9312019
	1:[f61<2.00001001] yes=3,no=4,missing=4,gain=19.3462334,cover=2.87474418
		3:leaf=-0.609474957,cover=1.53319895
		4:leaf=3.63442755,cover=1.34154534
	2:[f29<2.00001001] yes=5,no=6,missing=6,gain=10.1308861,cover=43.0564575
		5:leaf=-0.734555721,cover=20.7280827
		6:leaf=0.217203051,cover=22.3283749
";

fn trees() -> Vec<String> {
    TREES.iter().map(|t| t.to_string()).collect()
}

#[test]
fn dump_model() {
    let booster = Booster::from_handle(6);
    match booster.dump_model(true, None, DumpEvent::Start) {
        DumpStep::Perform(Call::BoosterDumpModelEx { booster, fmap, with_stats, format }) => {
            assert_eq!(booster, 6);
            assert_eq!(fmap, "\0");
            assert_eq!(with_stats, 1);
            assert_eq!(format.as_str(), "text\0");
        }
        _ => panic!("a call was expected"),
    }
    match booster.dump_model(true, None, DumpEvent::Dumped(Ok(trees()))) {
        DumpStep::Finish(Ok(text)) => assert_eq!(text, DUMP),
        _ => panic!("the dump was expected"),
    }
}

#[test]
fn a_feature_map_goes_into_a_file_first() {
    let booster = Booster::from_handle(6);
    let lines = vec!["1\tsize\tq".to_owned(), "0\tage\tint".to_owned()];
    let map = FeatureMap::from_lines(&lines).ok().unwrap();
    match booster.dump_model(false, Some(&map), DumpEvent::Start) {
        DumpStep::Save(text) => assert_eq!(text, "0\tage\tint\n1\tsize\tq\n"),
        _ => panic!("a file was expected"),
    }
    let saved = DumpEvent::Saved(Ok("/tmp/x/fmap.json".to_owned()));
    match booster.dump_model(false, Some(&map), saved) {
        DumpStep::Perform(Call::BoosterDumpModelEx { fmap, with_stats, .. }) => {
            assert_eq!(fmap, "/tmp/x/fmap.json\0");
            assert_eq!(with_stats, 0);
        }
        _ => panic!("a call was expected"),
    }
    let failed = DumpEvent::Saved(Err("no space left".to_owned()));
    match booster.dump_model(false, Some(&map), failed) {
        DumpStep::Finish(Err(e)) => assert_eq!(e.desc, "no space left"),
        _ => panic!("a failure was expected"),
    }
}

#[test]
fn a_dump_by_trees_is_not_joined() {
    let booster = Booster::from_handle(6);
    assert!(matches!(booster.dump_model_vec(false, None), Step::Perform(_)));
    match booster.dump_model_vec(false, Some(Ok(trees()))) {
        Step::Finish(Ok(texts)) => assert_eq!(texts, trees()),
        _ => panic!("the dump was expected"),
    }
    match booster.dump_model_fmap(false, None, Some(Ok(Vec::new()))) {
        Step::Finish(Ok(text)) => assert_eq!(text, ""),
        _ => panic!("the dump was expected"),
    }
    let failed = Some(Err(XGBError::new("broken".to_owned())));
    match booster.dump_model_fmap_vec(false, Some("f"), failed) {
        Step::Finish(Err(e)) => assert_eq!(e.desc, "broken"),
        _ => panic!("a failure was expected"),
    }
}
