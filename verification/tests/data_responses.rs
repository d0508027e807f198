use nautilus_history::data_responses::{
    BookDeltasResponse, BookDepthResponse, BookResponse, CustomDataResponse,
    FundingRatesResponse, InstrumentResponse, InstrumentsResponse,
    OptionChainReferencePriceResponse, QuotesResponse, TradesResponse,
};
use nautilus_history::messages::{ParamValue, Params};
use nautilus_history::model::{ClientId, InstrumentId, OptionSeriesId, Price, Venue, UUID4};

fn params() -> Option<Params> {
    let mut p = Params::new();
    p.insert("k".to_string(), ParamValue::Unsigned(3));
    Some(p)
}

#[test]
fn test_custom_data_response_new_shares_the_payload() {
    let r = CustomDataResponse::new(
        UUID4 { value: 1 },
        ClientId { id: 2 },
        Some(Venue { id: 3 }),
        "MyData".to_string(),
        vec![1u8, 2, 3],
        Some(10),
        Some(20),
        30,
        params(),
    );
    assert_eq!(r.correlation_id, UUID4 { value: 1 });
    assert_eq!(r.client_id, ClientId { id: 2 });
    assert_eq!(r.venue, Some(Venue { id: 3 }));
    assert_eq!(r.data_type, "MyData");
    assert_eq!(*r.data, vec![1u8, 2, 3]);
    let copy = r.clone();
    assert!(std::sync::Arc::ptr_eq(&copy.data, &r.data));
    assert_eq!((r.start, r.end, r.ts_init), (Some(10), Some(20), 30));
    assert_eq!(r.params.unwrap().get("k").and_then(|v| v.as_u64()), Some(3));
}

#[test]
fn test_instrument_responses_new() {
    let one = InstrumentResponse::new(UUID4 { value: 1 }, ClientId { id: 2 }, InstrumentId { id: 3 }, "BTC", None, None, 4, None);
    assert_eq!((one.instrument_id, one.data, one.ts_init), (InstrumentId { id: 3 }, "BTC", 4));
    let many = InstrumentsResponse::new(UUID4 { value: 1 }, ClientId { id: 2 }, Venue { id: 5 }, vec!["BTC", "ETH"], Some(1), None, 4, params());
    assert_eq!(many.venue, Venue { id: 5 });
    assert_eq!(many.data, vec!["BTC", "ETH"]);
    assert_eq!(many.start, Some(1));
    assert!(many.params.is_some());
}

#[test]
fn test_market_data_responses_new() {
    let id = UUID4 { value: 9 };
    let client = ClientId { id: 8 };
    let inst = InstrumentId { id: 7 };
    let book = BookResponse::new(id, client, inst, 42u32, None, Some(5), 6, None);
    assert_eq!((book.correlation_id, book.data, book.end), (id, 42, Some(5)));
    let deltas = BookDeltasResponse::new(id, client, inst, vec![1i32, -1], None, None, 6, None);
    assert_eq!(deltas.data, vec![1, -1]);
    let depth = BookDepthResponse::new(id, client, inst, vec![[1u8; 10]], None, None, 6, None);
    assert_eq!(depth.data.len(), 1);
    let quotes = QuotesResponse::new(id, client, inst, vec![(1u64, 2u64)], None, None, 6, None);
    assert_eq!(quotes.data, vec![(1, 2)]);
    let trades = TradesResponse::new(id, client, inst, Vec::<u64>::new(), None, None, 6, None);
    assert!(trades.data.is_empty());
    let rates = FundingRatesResponse::new(id, client, inst, vec![0.0001f64], Some(1), Some(2), 6, params());
    assert_eq!(rates.data, vec![0.0001]);
    assert_eq!(rates.instrument_id, inst);
    assert_eq!(rates.client_id, client);
}

#[test]
fn test_option_chain_reference_price_response_new() {
    let price = Price { raw: 1_500_000_000, precision: 2 };
    let r = OptionChainReferencePriceResponse::new(UUID4 { value: 3 }, ClientId { id: 4 }, OptionSeriesId { id: 5 }, Some(price), 6, None);
    assert_eq!(r.series_id, OptionSeriesId { id: 5 });
    assert_eq!(r.price, Some(price));
    assert_eq!(r.ts_init, 6);
    let none = OptionChainReferencePriceResponse::new(UUID4 { value: 3 }, ClientId { id: 4 }, OptionSeriesId { id: 5 }, None, 6, params());
    assert!(none.price.is_none());
}
