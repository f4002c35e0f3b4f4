use rai_toolkit::{
    syn_ca_french, syn_ca_hwy, syn_number_suffix, syn_ny_beach, syn_state_hwy, syn_us_cr,
    syn_us_famous, syn_us_hwy, syn_written_numeric,
};
use rai_toolkit::{Context, Name, Source, Tokens};

fn ctx(country: &str, region: Option<&str>) -> Context {
    Context::new(
        String::from(country),
        region.map(|r| String::from(r)),
        Tokens::new(Vec::new()),
    )
}

#[test]
fn test_syn_us_famous() {
    let context = ctx("us", None);

    assert_eq!(syn_us_famous(&Name::new("", 0, None, &context), &context), vec![]);

    let results = vec![
        Name::new("John F Kennedy", 1, Some(Source::Generated), &context),
        Name::new("JFK", -1, Some(Source::Generated), &context)
    ];
    assert_eq!(syn_us_famous(&Name::new("JFK", 0, None, &context), &context), results);
    assert_eq!(syn_us_famous(&Name::new("J.F.K.", 0, None, &context), &context), results);
    assert_eq!(syn_us_famous(&Name::new("J F K", 0, None, &context), &context), results);
    assert_eq!(syn_us_famous(&Name::new("J. F. K.", 0, None, &context), &context), results);
    assert_eq!(syn_us_famous(&Name::new("John F Kennedy", 0, None, &context), &context), results);
    assert_eq!(syn_us_famous(&Name::new("John F. Kennedy", 0, None, &context), &context), results);

    let results = vec![
        Name::new("John F Kennedy Highway", 1, Some(Source::Generated), &context),
        Name::new("JFK Highway", -1, Some(Source::Generated), &context)
    ];
    assert_eq!(syn_us_famous(&Name::new("JFK Highway", 0, None, &context), &context), results);
    assert_eq!(syn_us_famous(&Name::new("J.F.K Highway", 0, None, &context), &context), results);
    assert_eq!(syn_us_famous(&Name::new("J F K Highway", 0, None, &context), &context), results);
    assert_eq!(syn_us_famous(&Name::new("J. F. K. Highway", 0, None, &context), &context), results);
    assert_eq!(syn_us_famous(&Name::new("John F Kennedy Highway", 0, None, &context), &context), results);

    let results = vec![
        Name::new("NE John F Kennedy Highway", 1, Some(Source::Generated), &context),
        Name::new("NE JFK Highway", -1, Some(Source::Generated), &context)
    ];
    assert_eq!(syn_us_famous(&Name::new("NE JFK Highway", 0, None, &context), &context), results);
    assert_eq!(syn_us_famous(&Name::new("NE J.F.K Highway", 0, None, &context), &context), results);
    assert_eq!(syn_us_famous(&Name::new("NE J F K Highway", 0, None, &context), &context), results);
    assert_eq!(syn_us_famous(&Name::new("NE J. F. K. Highway", 0, None, &context), &context), results);
    assert_eq!(syn_us_famous(&Name::new("NE John F Kennedy Highway", 0, None, &context), &context), results);

    let results = vec![
        Name::new("John F Kennedy", -1, Some(Source::Generated), &context),
        Name::new("JFK", -2, Some(Source::Generated), &context)
    ];
    assert_eq!(syn_us_famous(&Name::new("JFK", -1, None, &context), &context), results);

    let results = vec![
        Name::new("John F Kennedy", 2, Some(Source::Generated), &context),
        Name::new("JFK", -1, Some(Source::Generated), &context)
    ];
    assert_eq!(syn_us_famous(&Name::new("JFK", 1, None, &context), &context), results);

    let results = vec![
        Name::new("Martin Luther King Jr", 1, Some(Source::Generated), &context),
        Name::new("MLK", -1, Some(Source::Generated), &context),
        Name::new("M L K", -1, Some(Source::Generated), &context),
        Name::new("Martin Luther King", -1, Some(Source::Generated), &context),
        Name::new("MLK Jr", -1, Some(Source::Generated), &context),
        Name::new("M L K Jr", -1, Some(Source::Generated), &context)
    ];
    assert_eq!(syn_us_famous(&Name::new("mlk", 0, None, &context), &context), results);
    assert_eq!(syn_us_famous(&Name::new("m l king", 0, None, &context), &context), results);
    assert_eq!(syn_us_famous(&Name::new("m l k", 0, None, &context), &context), results);
    assert_eq!(syn_us_famous(&Name::new("Martin Luther King", 0, None, &context), &context), results);
    assert_eq!(syn_us_famous(&Name::new("mlk jr", 0, None, &context), &context), results);
    assert_eq!(syn_us_famous(&Name::new("m l king jr", 0, None, &context), &context), results);
    assert_eq!(syn_us_famous(&Name::new("m l k jr", 0, None, &context), &context), results);
    assert_eq!(syn_us_famous(&Name::new("m l k junior", 0, None, &context), &context), results);
    assert_eq!(syn_us_famous(&Name::new("m. l. k. jr.", 0, None, &context), &context), results);
    assert_eq!(syn_us_famous(&Name::new("m. l. k. junior", 0, None, &context), &context), results);
    assert_eq!(syn_us_famous(&Name::new("Martin Luther King Jr", 0, None, &context), &context), results);
    assert_eq!(syn_us_famous(&Name::new("Martin Luther King Junior", 0, None, &context), &context), results);

    let results = vec![
        Name::new("Martin Luther King Jr Highway", 1, Some(Source::Generated), &context),
        Name::new("MLK Highway", -1, Some(Source::Generated), &context),
        Name::new("M L K Highway", -1, Some(Source::Generated), &context),
        Name::new("Martin Luther King Highway", -1, Some(Source::Generated), &context),
        Name::new("MLK Jr Highway", -1, Some(Source::Generated), &context),
        Name::new("M L K Jr Highway", -1, Some(Source::Generated), &context)
    ];
    assert_eq!(syn_us_famous(&Name::new("mlk Highway", 0, None, &context), &context), results);
    assert_eq!(syn_us_famous(&Name::new("m l king Highway", 0, None, &context), &context), results);
    assert_eq!(syn_us_famous(&Name::new("m l k Highway", 0, None, &context), &context), results);
    assert_eq!(syn_us_famous(&Name::new("Martin Luther King Highway", 0, None, &context), &context), results);
    assert_eq!(syn_us_famous(&Name::new("mlk jr Highway", 0, None, &context), &context), results);
    assert_eq!(syn_us_famous(&Name::new("m l king jr Highway", 0, None, &context), &context), results);
    assert_eq!(syn_us_famous(&Name::new("m l k jr Highway", 0, None, &context), &context), results);
    assert_eq!(syn_us_famous(&Name::new("m l k junior Highway", 0, None, &context), &context), results);
    assert_eq!(syn_us_famous(&Name::new("Martin Luther King Jr Highway", 0, None, &context), &context), results);
    assert_eq!(syn_us_famous(&Name::new("Martin Luther King Junior Highway", 0, None, &context), &context), results);

    let results = vec![
        Name::new("West Martin Luther King Jr Highway", 1, Some(Source::Generated), &context),
        Name::new("West MLK Highway", -1, Some(Source::Generated), &context),
        Name::new("West M L K Highway", -1, Some(Source::Generated), &context),
        Name::new("West Martin Luther King Highway", -1, Some(Source::Generated), &context),
        Name::new("West MLK Jr Highway", -1, Some(Source::Generated), &context),
        Name::new("West M L K Jr Highway", -1, Some(Source::Generated), &context)
    ];
    assert_eq!(syn_us_famous(&Name::new("West mlk Highway", 0, None, &context), &context), results);
    assert_eq!(syn_us_famous(&Name::new("West m l king Highway", 0, None, &context), &context), results);
    assert_eq!(syn_us_famous(&Name::new("West m l k Highway", 0, None, &context), &context), results);
    assert_eq!(syn_us_famous(&Name::new("West Martin Luther King Highway", 0, None, &context), &context), results);
    assert_eq!(syn_us_famous(&Name::new("West mlk jr Highway", 0, None, &context), &context), results);
    assert_eq!(syn_us_famous(&Name::new("West m l king jr Highway", 0, None, &context), &context), results);
    assert_eq!(syn_us_famous(&Name::new("West m l k jr Highway", 0, None, &context), &context), results);
    assert_eq!(syn_us_famous(&Name::new("West m l k junior Highway", 0, None, &context), &context), results);
    assert_eq!(syn_us_famous(&Name::new("West Martin Luther King Jr Highway", 0, None, &context), &context), results);
    assert_eq!(syn_us_famous(&Name::new("West Martin Luther King Junior Highway", 0, None, &context), &context), results);

    let results = vec![
        Name::new("Martin Luther King Jr", -1, Some(Source::Generated), &context),
        Name::new("MLK", -2, Some(Source::Generated), &context),
        Name::new("M L K", -2, Some(Source::Generated), &context),
        Name::new("Martin Luther King", -2, Some(Source::Generated), &context),
        Name::new("MLK Jr", -2, Some(Source::Generated), &context),
        Name::new("M L K Jr", -2, Some(Source::Generated), &context)
    ];
    assert_eq!(syn_us_famous(&Name::new("mlk", -1, None, &context), &context), results);

    let results = vec![
        Name::new("Martin Luther King Jr", 2, Some(Source::Generated), &context),
        Name::new("MLK", -1, Some(Source::Generated), &context),
        Name::new("M L K", -1, Some(Source::Generated), &context),
        Name::new("Martin Luther King", -1, Some(Source::Generated), &context),
        Name::new("MLK Jr", -1, Some(Source::Generated), &context),
        Name::new("M L K Jr", -1, Some(Source::Generated), &context)
    ];
    assert_eq!(syn_us_famous(&Name::new("mlk", 1, None, &context), &context), results);

    let context = Context::new(String::from("us"), None, Tokens::generate(vec![String::from("en")]));

    let input = vec![
        Name::new("NE M L King Blvd", 0, None, &context),
        Name::new("NE MARTIN LUTHER KING JR BLVD", 0, None, &context),
        Name::new("NE M L KING BLVD", 0, None, &context),
        Name::new("SE M L King Blvd", 0, None, &context),
        Name::new("N M L King Blvd", 0, None, &context),
        Name::new("SE MARTIN LUTHER KING JR BLVD", 0, None, &context),
        Name::new("NE MLK", 0, None, &context),
        Name::new("Northeast Martin Luther King Junior Boulevard", 0, None, &context),
        Name::new("OR 99E", 0, None, &context),
        Name::new("State Highway 99E", 0, None, &context)
    ];
    let mut output = vec![];
    for name in input {
        let synonyms = syn_us_famous(&name, &context);
        for synonym in synonyms {
            output.push(synonym);
        }
    }
    assert_eq!(vec![
        Name::new("NE Martin Luther King Jr Blvd", 1, Some(Source::Generated), &context),
        Name::new("NE MLK Blvd", -1, Some(Source::Generated), &context),
        Name::new("NE M L K Blvd", -1, Some(Source::Generated), &context),
        Name::new("NE Martin Luther King Blvd", -1, Some(Source::Generated), &context),
        Name::new("NE MLK Jr Blvd", -1, Some(Source::Generated), &context),
        Name::new("NE M L K Jr Blvd", -1, Some(Source::Generated), &context),
        Name::new("NE Martin Luther King Jr Blvd", 1, Some(Source::Generated), &context),
        Name::new("NE MLK Blvd", -1, Some(Source::Generated), &context),
        Name::new("NE M L K Blvd", -1, Some(Source::Generated), &context),
        Name::new("NE Martin Luther King Blvd", -1, Some(Source::Generated), &context),
        Name::new("NE MLK Jr Blvd", -1, Some(Source::Generated), &context),
        Name::new("NE M L K Jr Blvd", -1, Some(Source::Generated), &context),
        Name::new("NE Martin Luther King Jr Blvd", 1, Some(Source::Generated), &context),
        Name::new("NE MLK Blvd", -1, Some(Source::Generated), &context),
        Name::new("NE M L K Blvd", -1, Some(Source::Generated), &context),
        Name::new("NE Martin Luther King Blvd", -1, Some(Source::Generated), &context),
        Name::new("NE MLK Jr Blvd", -1, Some(Source::Generated), &context),
        Name::new("NE M L K Jr Blvd", -1, Some(Source::Generated), &context),
        Name::new("SE Martin Luther King Jr Blvd", 1, Some(Source::Generated), &context),
        Name::new("SE MLK Blvd", -1, Some(Source::Generated), &context),
        Name::new("SE M L K Blvd", -1, Some(Source::Generated), &context),
        Name::new("SE Martin Luther King Blvd", -1, Some(Source::Generated), &context),
        Name::new("SE MLK Jr Blvd", -1, Some(Source::Generated), &context),
        Name::new("SE M L K Jr Blvd", -1, Some(Source::Generated), &context),
        Name::new("N Martin Luther King Jr Blvd", 1, Some(Source::Generated), &context),
        Name::new("N MLK Blvd", -1, Some(Source::Generated), &context),
        Name::new("N M L K Blvd", -1, Some(Source::Generated), &context),
        Name::new("N Martin Luther King Blvd", -1, Some(Source::Generated), &context),
        Name::new("N MLK Jr Blvd", -1, Some(Source::Generated), &context),
        Name::new("N M L K Jr Blvd", -1, Some(Source::Generated), &context),
        Name::new("SE Martin Luther King Jr Blvd", 1, Some(Source::Generated), &context),
        Name::new("SE MLK Blvd", -1, Some(Source::Generated), &context),
        Name::new("SE M L K Blvd", -1, Some(Source::Generated), &context),
        Name::new("SE Martin Luther King Blvd", -1, Some(Source::Generated), &context),
        Name::new("SE MLK Jr Blvd", -1, Some(Source::Generated), &context),
        Name::new("SE M L K Jr Blvd", -1, Some(Source::Generated), &context),
        Name::new("NE Martin Luther King Jr", 1, Some(Source::Generated), &context),
        Name::new("NE MLK", -1, Some(Source::Generated), &context),
        Name::new("NE M L K", -1, Some(Source::Generated), &context),
        Name::new("NE Martin Luther King", -1, Some(Source::Generated), &context),
        Name::new("NE MLK Jr", -1, Some(Source::Generated), &context),
        Name::new("NE M L K Jr", -1, Some(Source::Generated), &context),
        Name::new("Northeast Martin Luther King Jr Boulevard", 1, Some(Source::Generated), &context),
        Name::new("Northeast MLK Boulevard", -1, Some(Source::Generated), &context),
        Name::new("Northeast M L K Boulevard", -1, Some(Source::Generated), &context),
        Name::new("Northeast Martin Luther King Boulevard", -1, Some(Source::Generated), &context),
        Name::new("Northeast MLK Jr Boulevard", -1, Some(Source::Generated), &context),
        Name::new("Northeast M L K Jr Boulevard", -1, Some(Source::Generated), &context),
    ], output);
}

#[test]
fn test_syn_us_cr() {
    let context = ctx("us", None);

    assert_eq!(syn_us_cr(&Name::new("", 0, None, &context), &context), vec![]);

    let results = vec![
        Name::new("County Road 123", 1, Some(Source::Generated), &context),
        Name::new("CR 123", -1, Some(Source::Generated), &context),
    ];
    assert_eq!(syn_us_cr(&Name::new("County Road 123", 0, None, &context), &context), results);
    assert_eq!(syn_us_cr(&Name::new("CR 123", 0, None, &context), &context), results);

    let results = vec![
        Name::new("County Road 123", -1, Some(Source::Generated), &context),
        Name::new("CR 123", -2, Some(Source::Generated), &context),
    ];
    assert_eq!(syn_us_cr(&Name::new("County Road 123", -1, None, &context), &context), results);

    let results = vec![
        Name::new("County Road 123", 2, Some(Source::Generated), &context),
        Name::new("CR 123", -1, Some(Source::Generated), &context),
    ];
    assert_eq!(syn_us_cr(&Name::new("County Road 123", 1, None, &context), &context), results);
}

#[test]
fn test_syn_ca_french() {
    let context = ctx("ca", Some("qc"));

    assert_eq!(syn_ca_french(&Name::new("", 0, None, &context), &context), vec![]);

    assert_eq!(syn_ca_french(&Name::new("r principale", 0, None, &context), &context), vec![
        Name::new("principale", -1, Some(Source::Generated), &context)
    ]);

    assert_eq!(syn_ca_french(&Name::new("r des peupliers", 0, None, &context), &context), vec![]);
    assert_eq!(syn_ca_french(&Name::new("ch des hauteurs", 0, None, &context), &context), vec![]);
    assert_eq!(syn_ca_french(&Name::new("r du blizzard", 0, None, &context), &context), vec![]);
    assert_eq!(syn_ca_french(&Name::new("bd de lhotel de vl", 0, None, &context), &context), vec![]);
}

#[test]
fn test_syn_ny_beach() {
    let context = ctx("us", Some("ny"));

    assert_eq!(syn_ny_beach(&Name::new("", 0, None, &context), &context), vec![]);

    let results = vec![
        Name::new("Beach 31st St", 1, Some(Source::Generated), &context),
        Name::new("B 31st St", -1, Some(Source::Generated), &context)
    ];
    assert_eq!(syn_ny_beach(&Name::new("Beach 31st St", 0, None, &context), &context), results);
    assert_eq!(syn_ny_beach(&Name::new("Bch 31st St", 0, None, &context), &context), results);
    assert_eq!(syn_ny_beach(&Name::new("B 31st St", 0, None, &context), &context), vec![]);
    assert_eq!(syn_ny_beach(&Name::new("9B 31st St", 0, None, &context), &context), vec![]);

    let results = vec![
        Name::new("Beach 31st St", -1, Some(Source::Generated), &context),
        Name::new("B 31st St", -2, Some(Source::Generated), &context)
    ];
    assert_eq!(syn_ny_beach(&Name::new("Beach 31st St", -1, None, &context), &context), results);

    let results = vec![
        Name::new("Beach 31st St", 2, Some(Source::Generated), &context),
        Name::new("B 31st St", -1, Some(Source::Generated), &context)
    ];
    assert_eq!(syn_ny_beach(&Name::new("Beach 31st St", 1, None, &context), &context), results);
}

#[test]
fn test_syn_ca_hwy() {
    let context = ctx("ca", Some("on"));

    assert_eq!(syn_ca_hwy(&Name::new("", 0, None, &context), &context), vec![]);
    assert_eq!(syn_ca_hwy(&Name::new("1", 0, None, &context), &context), vec![]);

    let results = vec![
        Name::new("Ontario Route 101", 1, Some(Source::Generated), &context),
        Name::new("Highway 101", -1, Some(Source::Generated), &context),
        Name::new("Route 101", -1, Some(Source::Generated), &context),
        Name::new("ON 101", -2, Some(Source::Generated), &context)
    ];
    assert_eq!(syn_ca_hwy(&Name::new("101", 0, None, &context), &context), results);
    assert_eq!(syn_ca_hwy(&Name::new("ON-101", 0, None, &context), &context), results);
    assert_eq!(syn_ca_hwy(&Name::new("Kings's Highway 101", 0, None, &context), &context), results);
    assert_eq!(syn_ca_hwy(&Name::new("Highway 101", 0, None, &context), &context), results);
    assert_eq!(syn_ca_hwy(&Name::new("Route 101", 0, None, &context), &context), results);
    assert_eq!(syn_ca_hwy(&Name::new("Ontario Highway 101", 0, None, &context), &context), results);

    let context = ctx("ca", Some("nb"));
    let results = vec![
        Name::new("New Brunswick Highway 101", 1, Some(Source::Generated), &context),
        Name::new("Highway 101", -1, Some(Source::Generated), &context),
        Name::new("Route 101", -1, Some(Source::Generated), &context),
        Name::new("NB 101", -2, Some(Source::Generated), &context)
    ];
    assert_eq!(syn_ca_hwy(&Name::new("101", 0, None, &context), &context), results);
    assert_eq!(syn_ca_hwy(&Name::new("NB-101", 0, None, &context), &context), results);
    assert_eq!(syn_ca_hwy(&Name::new("Kings's Highway 101", 0, None, &context), &context), results);
    assert_eq!(syn_ca_hwy(&Name::new("Highway 101", 0, None, &context), &context), results);
    assert_eq!(syn_ca_hwy(&Name::new("Route 101", 0, None, &context), &context), results);
    assert_eq!(syn_ca_hwy(&Name::new("New Brunswick Highway 101", 0, None, &context), &context), results);

    let results = vec![
        Name::new("New Brunswick Highway 101", -1, Some(Source::Generated), &context),
        Name::new("Highway 101", -2, Some(Source::Generated), &context),
        Name::new("Route 101", -2, Some(Source::Generated), &context),
        Name::new("NB 101", -3, Some(Source::Generated), &context)
    ];
    assert_eq!(syn_ca_hwy(&Name::new("101", -1, None, &context), &context), results);

    let results = vec![
        Name::new("New Brunswick Highway 101", 2, Some(Source::Generated), &context),
        Name::new("Highway 101", -1, Some(Source::Generated), &context),
        Name::new("Route 101", -1, Some(Source::Generated), &context),
        Name::new("NB 101", -2, Some(Source::Generated), &context)
    ];
    assert_eq!(syn_ca_hwy(&Name::new("101", 1, None, &context), &context), results);
}

#[test]
fn test_syn_us_hwy() {
    let context = ctx("us", None);

    assert_eq!(syn_us_hwy(&Name::new("", 0, None, &context), &context), vec![]);

    let results = vec![
        Name::new("US Route 81", 1, Some(Source::Generated), &context),
        Name::new("US 81", -1, Some(Source::Generated), &context),
        Name::new("US Highway 81", -1, Some(Source::Generated), &context),
        Name::new("United States Route 81", -1, Some(Source::Generated), &context),
        Name::new("United States Highway 81", -1, Some(Source::Generated), &context)
    ];
    assert_eq!(syn_us_hwy(&Name::new("us-81", 0, None, &context), &context), results);
    assert_eq!(syn_us_hwy(&Name::new("US 81", 0, None, &context), &context), results);
    assert_eq!(syn_us_hwy(&Name::new("U.S. Route 81", 0, None, &context), &context), results);
    assert_eq!(syn_us_hwy(&Name::new("US Route 81", 0, None, &context), &context), results);
    assert_eq!(syn_us_hwy(&Name::new("US Rte 81", 0, None, &context), &context), results);
    assert_eq!(syn_us_hwy(&Name::new("US Hwy 81", 0, None, &context), &context), results);
    assert_eq!(syn_us_hwy(&Name::new("US Highway 81", 0, None, &context), &context), results);
    assert_eq!(syn_us_hwy(&Name::new("United States 81", 0, None, &context), &context), results);
    assert_eq!(syn_us_hwy(&Name::new("United States Route 81", 0, None, &context), &context), results);
    assert_eq!(syn_us_hwy(&Name::new("United States Highway 81", 0, None, &context), &context), results);
    assert_eq!(syn_us_hwy(&Name::new("United States Hwy 81", 0, None, &context), &context), results);

    let results = vec![
        Name::new("US Route 81", -1, Some(Source::Generated), &context),
        Name::new("US 81", -2, Some(Source::Generated), &context),
        Name::new("US Highway 81", -2, Some(Source::Generated), &context),
        Name::new("United States Route 81", -2, Some(Source::Generated), &context),
        Name::new("United States Highway 81", -2, Some(Source::Generated), &context)
    ];
    assert_eq!(syn_us_hwy(&Name::new("US Route 81", -1, None, &context), &context), results);

    let results = vec![
        Name::new("US Route 81", 2, Some(Source::Generated), &context),
        Name::new("US 81", -1, Some(Source::Generated), &context),
        Name::new("US Highway 81", -1, Some(Source::Generated), &context),
        Name::new("United States Route 81", -1, Some(Source::Generated), &context),
        Name::new("United States Highway 81", -1, Some(Source::Generated), &context)
    ];
    assert_eq!(syn_us_hwy(&Name::new("US Route 81", 1, None, &context), &context), results);
}

#[test]
fn test_syn_state_hwy() {
    let context = ctx("us", Some("PA"));

    assert_eq!(syn_state_hwy(&Name::new("", 0, None, &context), &context), vec![]);

    let results = vec![
        Name::new("Pennsylvania Highway 123", 1, Some(Source::Generated), &context),
        Name::new("PA 123 Highway", -2, Some(Source::Generated), &context),
        Name::new("PA 123", -1, Some(Source::Generated), &context),
        Name::new("Highway 123", -2, Some(Source::Generated), &context),
        Name::new("SR 123", -1, Some(Source::Generated), &context),
        Name::new("State Highway 123", -1, Some(Source::Generated), &context),
        Name::new("State Route 123", -1, Some(Source::Generated), &context)
    ];
    assert_eq!(syn_state_hwy(&Name::new("St Hwy 123", 0, None, &context), &context), results);
    assert_eq!(syn_state_hwy(&Name::new("St Rte 123", 0, None, &context), &context), results);
    assert_eq!(syn_state_hwy(&Name::new("State Highway 123", 0, None, &context), &context), results);
    assert_eq!(syn_state_hwy(&Name::new("Highway 123", 0, None, &context), &context), results);
    assert_eq!(syn_state_hwy(&Name::new("Hwy 123", 0, None, &context), &context), results);
    assert_eq!(syn_state_hwy(&Name::new("Pennsylvania Highway 123", 0, None, &context), &context), results);
    assert_eq!(syn_state_hwy(&Name::new("Pennsylvania Route 123", 0, None, &context), &context), results);
    assert_eq!(syn_state_hwy(&Name::new("PA 123", 0, None, &context), &context), results);
    assert_eq!(syn_state_hwy(&Name::new("PA-123", 0, None, &context), &context), results);
    assert_eq!(syn_state_hwy(&Name::new("US-PA-123", 0, None, &context), &context), results);

    let results = vec![
        Name::new("Pennsylvania Highway 123", -1, Some(Source::Generated), &context),
        Name::new("PA 123 Highway", -3, Some(Source::Generated), &context),
        Name::new("PA 123", -2, Some(Source::Generated), &context),
        Name::new("Highway 123", -3, Some(Source::Generated), &context),
        Name::new("SR 123", -2, Some(Source::Generated), &context),
        Name::new("State Highway 123", -2, Some(Source::Generated), &context),
        Name::new("State Route 123", -2, Some(Source::Generated), &context)
    ];
    assert_eq!(syn_state_hwy(&Name::new("Pennsylvania Highway 123", -1, None, &context), &context), results);

    let results = vec![
        Name::new("Pennsylvania Highway 123", 2, Some(Source::Generated), &context),
        Name::new("PA 123 Highway", -2, Some(Source::Generated), &context),
        Name::new("PA 123", -1, Some(Source::Generated), &context),
        Name::new("Highway 123", -2, Some(Source::Generated), &context),
        Name::new("SR 123", -1, Some(Source::Generated), &context),
        Name::new("State Highway 123", -1, Some(Source::Generated), &context),
        Name::new("State Route 123", -1, Some(Source::Generated), &context)
    ];
    assert_eq!(syn_state_hwy(&Name::new("Pennsylvania Highway 123", 1, None, &context), &context), results);
}

#[test]
fn test_syn_number_suffix() {
    let context = ctx("us", None);

    assert_eq!(
        syn_number_suffix(&Name::new("1st Avenue", 0, None, &context), &context),
        Vec::new()
    );
    assert_eq!(
        syn_number_suffix(&Name::new("1 Avenue", 0, None, &context), &context),
        vec![Name::new("1st Avenue", -1, Some(Source::Generated), &context)]
    );
    assert_eq!(
        syn_number_suffix(&Name::new("2 Avenue", 0, None, &context), &context),
        vec![Name::new("2nd Avenue", -1, Some(Source::Generated), &context)]
    );
    assert_eq!(
        syn_number_suffix(&Name::new("3 Street", 0, None, &context), &context),
        vec![Name::new("3rd Street", -1, Some(Source::Generated), &context)]
    );
    assert_eq!(
        syn_number_suffix(&Name::new("4 Street", 0, None, &context), &context),
        vec![Name::new("4th Street", -1, Some(Source::Generated), &context)]
    );
    assert_eq!(
        syn_number_suffix(&Name::new("20 Street", 0, None, &context), &context),
        vec![Name::new("20th Street", -1, Some(Source::Generated), &context)]
    );
    assert_eq!(
        syn_number_suffix(&Name::new("21 Street", 0, None, &context), &context),
        vec![Name::new("21st Street", -1, Some(Source::Generated), &context)]
    );
}

#[test]
fn test_syn_written_numeric() {
    let context = ctx("us", None);

    assert_eq!(
        syn_written_numeric(&Name::new("Twenty-third Avenue NW", 0, None, &context), &context),
        vec![Name::new("23rd Avenue NW", -1, Some(Source::Generated), &context)]
    );
    assert_eq!(
        syn_written_numeric(&Name::new("North twenty-Third Avenue", 0, None, &context), &context),
        vec![Name::new("North 23rd Avenue", -1, Some(Source::Generated), &context)]
    );
    assert_eq!(
        syn_written_numeric(&Name::new("TWENTY-THIRD Avenue", 0, None, &context), &context),
        vec![Name::new("23rd Avenue", -1, Some(Source::Generated), &context)]
    );
}
